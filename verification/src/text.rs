//! Text assembly: joining, decimal numbers, SQL identifiers and literals.
use vstd::prelude::*;
use vstd::string::*;

verus! {

/// `parts` in order, with `separator` between neighbours.
pub open spec fn joined(parts: Seq<Seq<char>>, separator: Seq<char>) -> Seq<char>
    decreases parts.len(),
{
    if parts.len() == 0 {
        Seq::empty()
    } else if parts.len() == 1 {
        parts[0]
    } else {
        joined(parts.drop_last(), separator) + separator + parts.last()
    }
}

/// Appending one part to a joined list adds the separator exactly when the
/// list was not empty.
pub proof fn lemma_joined_push(parts: Seq<Seq<char>>, part: Seq<char>, separator: Seq<char>)
    ensures
        parts.len() == 0 ==> joined(parts.push(part), separator) == part,
        parts.len() > 0 ==> joined(parts.push(part), separator) == joined(parts, separator)
            + separator + part,
{
    assert(parts.push(part).drop_last() =~= parts);
    assert(parts.push(part).last() == part);
}

/// Append the separator before every part but the first.
pub fn separator_append(buf: &mut String, first: bool, separator: &str)
    ensures
        final(buf)@ == if first { old(buf)@ } else { old(buf)@ + separator@ },
{
    if !first {
        buf.append(separator);
    }
}

pub open spec fn digit_char(d: nat) -> char {
    if d == 0 { '0' } else if d == 1 { '1' } else if d == 2 { '2' } else if d == 3 { '3' }
    else if d == 4 { '4' } else if d == 5 { '5' } else if d == 6 { '6' } else if d == 7 { '7' }
    else if d == 8 { '8' } else { '9' }
}

/// The decimal numeral of `n`, without leading zeros.
pub open spec fn decimal(n: nat) -> Seq<char>
    decreases n,
{
    if n < 10 {
        seq![digit_char(n)]
    } else {
        decimal(n / 10).push(digit_char(n % 10))
    }
}

fn digit_str(d: u64) -> (s: &'static str)
    requires
        d < 10,
    ensures
        s@ =~= seq![digit_char(d as nat)],
{
    proof {
        reveal_strlit("0");
        reveal_strlit("1");
        reveal_strlit("2");
        reveal_strlit("3");
        reveal_strlit("4");
        reveal_strlit("5");
        reveal_strlit("6");
        reveal_strlit("7");
        reveal_strlit("8");
        reveal_strlit("9");
    }
    match d {
        0 => "0",
        1 => "1",
        2 => "2",
        3 => "3",
        4 => "4",
        5 => "5",
        6 => "6",
        7 => "7",
        8 => "8",
        _ => "9",
    }
}

/// Append the decimal numeral of `n`.
pub fn decimal_append(buf: &mut String, n: u64)
    ensures
        final(buf)@ == old(buf)@ + decimal(n as nat),
    decreases n,
{
    if n >= 10 {
        decimal_append(buf, n / 10);
    }
    buf.append(digit_str(n % 10));
    proof {
        assert(old(buf)@ + decimal(n as nat) =~= buf@);
    }
}

/// Characters of an SQL identifier between its quotes: each `"` is doubled.
pub open spec fn quote_doubled(s: Seq<char>, quote: char) -> Seq<char>
    decreases s.len(),
{
    if s.len() == 0 {
        Seq::empty()
    } else {
        let rest = quote_doubled(s.drop_last(), quote);
        if s.last() == quote {
            rest.push(quote).push(quote)
        } else {
            rest.push(s.last())
        }
    }
}

/// `name` as a double-quoted SQL identifier.
pub open spec fn identifier(name: Seq<char>) -> Seq<char> {
    seq!['"'] + quote_doubled(name, '"') + seq!['"']
}

/// Append `name` as a double-quoted SQL identifier.
pub fn identifier_quote_into(name: &str, buf: &mut String)
    ensures
        final(buf)@ == old(buf)@ + identifier(name@),
{
    proof {
        reveal_strlit("\"");
        reveal_strlit("\"\"");
    }
    buf.append("\"");
    let n: usize = name.unicode_len();
    let mut i: usize = 0;
    assert(name@.take(0) =~= Seq::<char>::empty());
    while i < n
        invariant
            n == name@.len(),
            i <= n,
            buf@ == old(buf)@ + seq!['"'] + quote_doubled(name@.take(i as int), '"'),
        decreases n - i,
    {
        let c = name.get_char(i);
        proof {
            reveal_strlit("\"\"");
            assert(name@.take(i + 1).drop_last() =~= name@.take(i as int));
        }
        if c == '"' {
            buf.append("\"\"");
        } else {
            buf.append(name.substring_char(i, i + 1));
            assert(name@.subrange(i as int, i + 1) =~= seq![c]);
        }
        proof {
            assert(buf@ =~= old(buf)@ + seq!['"'] + quote_doubled(name@.take(i + 1), '"'));
        }
        i = i + 1;
    }
    assert(name@.take(n as int) =~= name@);
    buf.append("\"");
    proof {
        assert(buf@ =~= old(buf)@ + identifier(name@));
    }
}

/// Characters of an SQL string literal between its quotes: each `'` and each
/// `\\` is doubled.
pub open spec fn literal_body(s: Seq<char>) -> Seq<char>
    decreases s.len(),
{
    if s.len() == 0 {
        Seq::empty()
    } else {
        let rest = literal_body(s.drop_last());
        if s.last() == '\'' || s.last() == '\\' {
            rest.push(s.last()).push(s.last())
        } else {
            rest.push(s.last())
        }
    }
}

/// `value` as an SQL string literal. A value holding a backslash takes the
/// escape-string form, with a leading blank.
pub open spec fn literal(value: Seq<char>) -> Seq<char> {
    let quoted = seq!['\''] + literal_body(value) + seq!['\''];
    if value.contains('\\') {
        seq![' ', 'E'] + quoted
    } else {
        quoted
    }
}

/// `postgres_protocol::escape::escape_literal`: the value in single quotes,
/// with quotes and backslashes doubled, and the ` E` prefix exactly when the
/// value holds a backslash.
#[verifier::external_body]
pub(crate) fn literal_escape(value: &str) -> (escaped: String)
    ensures
        escaped@ == literal(value@),
{
    postgres_protocol::escape::escape_literal(value)
}

/// A cell as SQL: the literal of its text, or `NULL`.
pub open spec fn cell_sql(cell: Option<Seq<char>>) -> Seq<char> {
    match cell {
        Some(value) => literal(value),
        None => "NULL"@,
    }
}

/// Append a cell as SQL.
pub fn cell_append(buf: &mut String, cell: &Option<String>)
    ensures
        final(buf)@ == old(buf)@ + cell_sql(cell.deep_view()),
{
    match cell {
        Some(value) => {
            let escaped = literal_escape(value.as_str());
            buf.append(escaped.as_str());
        }
        None => buf.append("NULL"),
    }
}

/// Appending to a growing text: concatenation groups either way.
pub proof fn lemma_append_assoc(start: Seq<char>, a: Seq<char>, b: Seq<char>, c: Seq<char>)
    ensures
        start + (a + b) == start + a + b,
        start + (a + b + c) == start + a + b + c,
{
    assert(start + (a + b) =~= start + a + b);
    assert(start + (a + b + c) =~= start + a + b + c);
}

/// Append `items` with `separator` between neighbours.
pub fn list_append(buf: &mut String, items: &Vec<String>, separator: &str)
    ensures
        final(buf)@ == old(buf)@ + joined(items.deep_view(), separator@),
{
    let ghost start = buf@;
    let ghost parts = items.deep_view();
    let mut i: usize = 0;
    proof {
        assert(start + joined(parts.take(0), separator@) =~= start);
    }
    while i < items.len()
        invariant
            i <= items.len(),
            parts == items.deep_view(),
            buf@ == start + joined(parts.take(i as int), separator@),
        decreases items.len() - i,
    {
        proof {
            let so_far = joined(parts.take(i as int), separator@);
            lemma_joined_push(parts.take(i as int), parts[i as int], separator@);
            lemma_append_assoc(start, so_far, separator@, parts[i as int]);
            assert(parts.take(i + 1) =~= parts.take(i as int).push(parts[i as int]));
            if i == 0 {
                assert(start + so_far =~= start);
            }
        }
        separator_append(buf, i == 0, separator);
        buf.append(items[i].as_str());
        i = i + 1;
    }
    proof {
        assert(parts.take(i as int) =~= parts);
    }
}

/// `name` as a double-quoted SQL identifier.
pub fn identifier_quoted(name: &str) -> (quoted: String)
    ensures
        quoted@ == identifier(name@),
{
    let mut quoted = String::new();
    identifier_quote_into(name, &mut quoted);
    proof {
        assert(Seq::<char>::empty() + identifier(name@) =~= identifier(name@));
    }
    quoted
}

/// A cell as SQL.
pub fn cell_rendered(cell: &Option<String>) -> (sql: String)
    ensures
        sql@ == cell_sql(cell.deep_view()),
{
    match cell {
        Some(value) => literal_escape(value.as_str()),
        None => "NULL".to_owned(),
    }
}

/// Every name as a double-quoted SQL identifier.
pub open spec fn identifiers(names: Seq<String>) -> Seq<Seq<char>> {
    Seq::new(names.len(), |i: int| identifier(names[i]@))
}

/// Every name as a double-quoted SQL identifier.
pub fn identifiers_quoted(names: &Vec<String>) -> (quoted: Vec<String>)
    ensures
        quoted.deep_view() == identifiers(names@),
{
    let mut quoted: Vec<String> = Vec::new();
    let mut i: usize = 0;
    while i < names.len()
        invariant
            i <= names.len(),
            quoted.deep_view() =~= identifiers(names@.take(i as int)),
        decreases names.len() - i,
    {
        let ghost before = quoted.deep_view();
        quoted.push(identifier_quoted(names[i].as_str()));
        proof {
            assert(quoted.deep_view() =~= before.push(identifier(names@[i as int]@)));
            assert(identifiers(names@.take(i + 1)) =~= identifiers(names@.take(i as int)).push(
                identifier(names@[i as int]@),
            ));
        }
        i = i + 1;
    }
    proof {
        assert(names@.take(i as int) =~= names@);
    }
    quoted
}

/// A copy of a list of texts.
pub fn texts_clone(texts: &Vec<String>) -> (copy: Vec<String>)
    ensures
        copy.deep_view() == texts.deep_view(),
{
    let mut copy: Vec<String> = Vec::new();
    let mut i: usize = 0;
    proof {
        assert(copy.deep_view() =~= texts.deep_view().take(0));
    }
    while i < texts.len()
        invariant
            i <= texts.len(),
            copy.deep_view() == texts.deep_view().take(i as int),
        decreases texts.len() - i,
    {
        let ghost before = copy.deep_view();
        copy.push(texts[i].clone());
        proof {
            assert(copy.deep_view() =~= before.push(texts.deep_view()[i as int]));
            assert(copy.deep_view() =~= texts.deep_view().take(i as int + 1));
        }
        i = i + 1;
    }
    proof {
        assert(texts.deep_view().take(i as int) =~= texts.deep_view());
    }
    copy
}

} // verus!
