# pgcache writer

The writer of a PostgreSQL query cache, verified with Verus.

A cache database holds shared tables with the rows that cached queries read. The
writer keeps them in step with the origin:

- it applies the origin's change stream, batch by batch, in one cache
  transaction per batch;
- it decides which cached queries a change invalidates, and which rows are
  written or removed;
- it merges populated snapshots, window by window, behind the apply watermark;
- it builds and retires materialized results, and makes room under pressure.

## Layout

- `src/` is the library. Every item is verified. It computes on plain values
  only: statements come out as text, replies go in as rows.
- `tests/` runs the library against scripted replies.
- `app/` runs it: connections, channels and clocks.

## How it is used

Work that waits for replies is a machine. A command of the change stream becomes
a task; the caller asks what the task needs, performs it, and answers, until the
task needs nothing more:

```rust
let mut task = writer.command_begin(cmd, queued)?;
loop {
    match writer.cdc.task_ask(&writer.core, &task) {
        CdcAsk::Done => break,
        CdcAsk::Continue => task = writer.command_step(task)?,
        ask => {
            let reply = perform(ask, &writer, &task);
            task = writer.command_answer(task, reply)?;
        }
    }
}
```

## What is proved

Each function's contract says what it returns and how it changes the state. The
modules named `*_laws` say what holds across functions: that events are handled
once each and in order, that a replay and a drain come to an end whatever the
database answers, that the watermark never passes what is applied, that memos
are bracketed on every path, that a deleted row stays out of every merge, that a
flagged query is never served on, that an incomplete image never reaches a
table.

Two outside crates are trusted: the literal escaping of `postgres-protocol`,
and the bounded cache of `lru` that holds prepared statements.
