//! What holds of assembled texts: lists keep their items, numerals their value,
//! and quoted names and literals read back as what they quote.
use vstd::prelude::*;

use crate::text::cell_sql;
use crate::text::decimal;
use crate::text::digit_char;
use crate::text::identifier;
use crate::text::joined;
use crate::text::literal;
use crate::text::literal_body;
use crate::text::quote_doubled;
use crate::values::digit_value;
use crate::values::digits_value;
use crate::values::integer_value;
use crate::values::unsigned_value;

verus! {

/// Joining two lists gives their joins with the separator between; one item
/// stands for itself, and no item for nothing.
pub proof fn lists_join_to_a_list(a: Seq<Seq<char>>, b: Seq<Seq<char>>, separator: Seq<char>)
    ensures
        joined(a + b, separator) == if a.len() == 0 {
            joined(b, separator)
        } else if b.len() == 0 {
            joined(a, separator)
        } else {
            joined(a, separator) + separator + joined(b, separator)
        },
        a.len() == 0 ==> joined(a, separator) == Seq::<char>::empty(),
        a.len() == 1 ==> joined(a, separator) == a[0],
    decreases b.len(),
{
    if b.len() == 0 {
        assert(a + b =~= a);
    } else if a.len() == 0 {
        assert(a + b =~= b);
    } else {
        let short = b.drop_last();
        lists_join_to_a_list(a, short, separator);
        assert((a + b).drop_last() =~= a + short);
        assert((a + b).last() == b.last());
        if short.len() == 0 {
            assert(a + short =~= a);
            assert(joined(b, separator) == b[0]);
        } else {
            assert(joined(a + b, separator) =~= joined(a, separator) + separator + joined(
                b,
                separator,
            ));
        }
    }
}

/// The characters of all parts and separators make up a joined list.
pub open spec fn total_len(parts: Seq<Seq<char>>) -> nat
    decreases parts.len(),
{
    if parts.len() == 0 {
        0
    } else {
        total_len(parts.drop_last()) + parts.last().len()
    }
}

/// Where an item of a joined list begins.
pub open spec fn item_start(parts: Seq<Seq<char>>, separator: Seq<char>, i: int) -> int {
    total_len(parts.take(i)) + i * separator.len()
}

/// A joined list holds every item, in order and between separators, and nothing
/// else.
pub proof fn joined_list_holds_every_item(parts: Seq<Seq<char>>, separator: Seq<char>)
    ensures
        ({
            let text = joined(parts, separator);
            &&& text.len() == total_len(parts) + (if parts.len() == 0 {
                0
            } else {
                (parts.len() - 1) * separator.len()
            })
            &&& forall|i: int|
                0 <= i < parts.len() ==> {
                    let at = #[trigger] item_start(parts, separator, i);
                    &&& 0 <= at
                    &&& at + parts[i].len() <= text.len()
                    &&& text.subrange(at, at + parts[i].len()) == parts[i]
                    &&& i + 1 < parts.len() ==> at + parts[i].len() + separator.len() <= text.len()
                        && text.subrange(
                        at + parts[i].len(),
                        at + parts[i].len() + separator.len(),
                    ) == separator
                }
        }),
    decreases parts.len(),
{
    let text = joined(parts, separator);
    if parts.len() == 1 {
        assert(parts.drop_last() =~= Seq::<Seq<char>>::empty());
        assert(parts.take(0) =~= Seq::<Seq<char>>::empty());
        assert(item_start(parts, separator, 0) == 0) by (nonlinear_arith)
            requires
                item_start(parts, separator, 0) == total_len(parts.take(0)) + 0 * separator.len(),
                total_len(parts.take(0)) == 0,
        ;
        assert(text.subrange(0, parts[0].len() as int) =~= parts[0]);
        assert((parts.len() - 1) * separator.len() == 0) by (nonlinear_arith)
            requires
                parts.len() == 1,
        ;
        assert forall|i: int| 0 <= i < parts.len() implies {
            let at = #[trigger] item_start(parts, separator, i);
            &&& 0 <= at
            &&& at + parts[i].len() <= text.len()
            &&& text.subrange(at, at + parts[i].len()) == parts[i]
        } by {
            assert(i == 0);
        }
    } else if parts.len() > 1 {
        let short = parts.drop_last();
        let before = joined(short, separator);
        let n = short.len() as int;
        joined_list_holds_every_item(short, separator);
        assert(text == before + separator + parts.last());
        assert(n * separator.len() == (n - 1) * separator.len() + separator.len())
            by (nonlinear_arith);
        assert forall|i: int| 0 <= i < parts.len() implies {
            let at = #[trigger] item_start(parts, separator, i);
            &&& 0 <= at
            &&& at + parts[i].len() <= text.len()
            &&& text.subrange(at, at + parts[i].len()) == parts[i]
            &&& i + 1 < parts.len() ==> at + parts[i].len() + separator.len() <= text.len()
                && text.subrange(
                at + parts[i].len(),
                at + parts[i].len() + separator.len(),
            ) == separator
        } by {
            let at = item_start(parts, separator, i);
            assert(i * separator.len() >= 0) by (nonlinear_arith)
                requires
                    i >= 0,
            ;
            if i < n {
                assert(parts.take(i) =~= short.take(i));
                assert(at == item_start(short, separator, i));
                assert(short[i] == parts[i]);
                assert(text.subrange(at, at + parts[i].len()) =~= before.subrange(
                    at,
                    at + parts[i].len(),
                ));
                if i + 1 < n {
                    assert(text.subrange(
                        at + parts[i].len(),
                        at + parts[i].len() + separator.len(),
                    ) =~= before.subrange(
                        at + parts[i].len(),
                        at + parts[i].len() + separator.len(),
                    ));
                } else {
                    assert(short.take(i) =~= short.drop_last());
                    assert(at + parts[i].len() == before.len());
                    assert(text.subrange(
                        at + parts[i].len(),
                        at + parts[i].len() + separator.len(),
                    ) =~= separator);
                }
            } else {
                assert(parts.take(i) =~= short);
                assert(at == before.len() + separator.len());
                assert(text.subrange(at, at + parts[i].len()) =~= parts.last());
            }
        }
    }
}

proof fn lemma_digit(d: nat)
    requires
        d < 10,
    ensures
        digit_value(digit_char(d)) == Some(d),
{
}

/// A numeral spells its number: read back, signed or not, it gives the number,
/// so that different numbers have different numerals. It has no leading zero.
pub proof fn numeral_spells_its_number(n: nat)
    ensures
        digits_value(decimal(n)) == Some(n),
        decimal(n).len() > 0,
        integer_value(decimal(n)) == Some(n as int),
        integer_value(seq!['-'] + decimal(n)) == Some(-(n as int)),
        integer_value(seq!['+'] + decimal(n)) == Some(n as int),
        n <= u64::MAX ==> unsigned_value(decimal(n)) == Some(n),
        n > u64::MAX ==> unsigned_value(decimal(n)) is None,
        n >= 10 ==> decimal(n)[0] != '0',
    decreases n,
{
    lemma_numeral(n);
    let text = decimal(n);
    assert((seq!['-'] + text).drop_first() =~= text);
    assert((seq!['+'] + text).drop_first() =~= text);
}

proof fn lemma_numeral(n: nat)
    ensures
        digits_value(decimal(n)) == Some(n),
        decimal(n).len() > 0,
        '0' <= decimal(n)[0] <= '9',
        n > 0 ==> decimal(n)[0] != '0',
    decreases n,
{
    lemma_digit(n % 10);
    if n < 10 {
        lemma_digit(n);
        assert(decimal(n).drop_last() =~= Seq::<char>::empty());
        reveal_with_fuel(digits_value, 2);
    } else {
        lemma_numeral(n / 10);
        assert(decimal(n).drop_last() =~= decimal(n / 10));
        assert(decimal(n)[0] == decimal(n / 10)[0]);
        assert((n / 10) * 10 + n % 10 == n) by (nonlinear_arith);
    }
}

/// Different numbers have different numerals.
pub proof fn numerals_differ(a: nat, b: nat)
    requires
        decimal(a) == decimal(b),
    ensures
        a == b,
{
    lemma_numeral(a);
    lemma_numeral(b);
}

/// How a quoted text is read, after its opening quote: a doubled quote stands
/// for one, a single one ends it. What it quotes, and what follows it.
pub open spec fn read_quoted(text: Seq<char>, quote: char) -> Option<(Seq<char>, Seq<char>)>
    decreases text.len(),
{
    if text.len() == 0 {
        None
    } else if text[0] == quote {
        if text.len() > 1 && text[1] == quote {
            match read_quoted(text.skip(2), quote) {
                Some((value, rest)) => Some((seq![quote] + value, rest)),
                None => None,
            }
        } else {
            Some((Seq::empty(), text.skip(1)))
        }
    } else {
        match read_quoted(text.skip(1), quote) {
            Some((value, rest)) => Some((seq![text[0]] + value, rest)),
            None => None,
        }
    }
}

/// How an escape string is read, after its opening quote: a quote or a
/// backslash stands for itself when it is doubled.
pub open spec fn read_escaped(text: Seq<char>) -> Option<(Seq<char>, Seq<char>)>
    decreases text.len(),
{
    if text.len() == 0 {
        None
    } else if text[0] == '\'' || text[0] == '\\' {
        if text.len() > 1 && text[1] == text[0] {
            match read_escaped(text.skip(2)) {
                Some((value, rest)) => Some((seq![text[0]] + value, rest)),
                None => None,
            }
        } else if text[0] == '\'' {
            Some((Seq::empty(), text.skip(1)))
        } else {
            None
        }
    } else {
        match read_escaped(text.skip(1)) {
            Some((value, rest)) => Some((seq![text[0]] + value, rest)),
            None => None,
        }
    }
}

proof fn lemma_doubled_front(s: Seq<char>, quote: char)
    requires
        s.len() > 0,
    ensures
        quote_doubled(s, quote) == (if s[0] == quote {
            seq![quote, quote]
        } else {
            seq![s[0]]
        }) + quote_doubled(s.drop_first(), quote),
    decreases s.len(),
{
    if s.len() == 1 {
        assert(s.drop_last() =~= Seq::<char>::empty());
        assert(s.drop_first() =~= Seq::<char>::empty());
        reveal_with_fuel(quote_doubled, 2);
        assert(quote_doubled(s, quote) =~= (if s[0] == quote {
            seq![quote, quote]
        } else {
            seq![s[0]]
        }) + quote_doubled(s.drop_first(), quote));
    } else {
        lemma_doubled_front(s.drop_last(), quote);
        assert(s.drop_last().drop_first() =~= s.drop_first().drop_last());
        assert(quote_doubled(s, quote) =~= (if s[0] == quote {
            seq![quote, quote]
        } else {
            seq![s[0]]
        }) + quote_doubled(s.drop_first(), quote));
    }
}

proof fn lemma_read_quoted(s: Seq<char>, quote: char, rest: Seq<char>)
    requires
        rest.len() > 0 ==> rest[0] != quote,
    ensures
        read_quoted(quote_doubled(s, quote) + seq![quote] + rest, quote) == Some((s, rest)),
    decreases s.len(),
{
    let text = quote_doubled(s, quote) + seq![quote] + rest;
    if s.len() == 0 {
        assert(text.skip(1) =~= rest);
        assert(s =~= Seq::<char>::empty());
    } else {
        let tail = quote_doubled(s.drop_first(), quote) + seq![quote] + rest;
        lemma_doubled_front(s, quote);
        lemma_read_quoted(s.drop_first(), quote, rest);
        if s[0] == quote {
            assert(text.skip(2) =~= tail);
        } else {
            assert(text.skip(1) =~= tail);
        }
        assert(seq![s[0]] + s.drop_first() =~= s);
    }
}

/// A quoted name reads back as the name, whatever it holds and whatever follows
/// it: no name ends its quotes early. Different names are quoted differently.
pub proof fn quoted_name_reads_back(name: Seq<char>, rest: Seq<char>)
    requires
        rest.len() > 0 ==> rest[0] != '"',
    ensures
        identifier(name).len() >= 2,
        identifier(name)[0] == '"',
        read_quoted((identifier(name) + rest).skip(1), '"') == Some((name, rest)),
{
    lemma_read_quoted(name, '"', rest);
    assert((identifier(name) + rest).skip(1) =~= quote_doubled(name, '"') + seq!['"'] + rest);
}

/// Different names are quoted differently.
pub proof fn quoted_names_differ(a: Seq<char>, b: Seq<char>)
    requires
        identifier(a) == identifier(b),
    ensures
        a == b,
{
    quoted_name_reads_back(a, Seq::empty());
    quoted_name_reads_back(b, Seq::empty());
}

proof fn lemma_literal_front(s: Seq<char>)
    requires
        s.len() > 0,
    ensures
        literal_body(s) == (if s[0] == '\'' || s[0] == '\\' {
            seq![s[0], s[0]]
        } else {
            seq![s[0]]
        }) + literal_body(s.drop_first()),
    decreases s.len(),
{
    let front = if s[0] == '\'' || s[0] == '\\' {
        seq![s[0], s[0]]
    } else {
        seq![s[0]]
    };
    if s.len() == 1 {
        assert(s.drop_last() =~= Seq::<char>::empty());
        assert(s.drop_first() =~= Seq::<char>::empty());
        reveal_with_fuel(literal_body, 2);
        assert(literal_body(s) =~= front + literal_body(s.drop_first()));
    } else {
        lemma_literal_front(s.drop_last());
        assert(s.drop_last().drop_first() =~= s.drop_first().drop_last());
        assert(literal_body(s) =~= front + literal_body(s.drop_first()));
    }
}

proof fn lemma_read_escaped(s: Seq<char>, rest: Seq<char>)
    requires
        rest.len() > 0 ==> rest[0] != '\'',
    ensures
        read_escaped(literal_body(s) + seq!['\''] + rest) == Some((s, rest)),
        !s.contains('\\') ==> read_quoted(literal_body(s) + seq!['\''] + rest, '\'') == Some(
            (s, rest),
        ),
    decreases s.len(),
{
    let text = literal_body(s) + seq!['\''] + rest;
    if s.len() == 0 {
        assert(text.skip(1) =~= rest);
        assert(s =~= Seq::<char>::empty());
    } else {
        let short = s.drop_first();
        let tail = literal_body(short) + seq!['\''] + rest;
        lemma_literal_front(s);
        lemma_read_escaped(short, rest);
        if short.contains('\\') {
            let k = choose|k: int| 0 <= k < short.len() && short[k] == '\\';
            assert(s[k + 1] == '\\');
        }
        if s[0] == '\'' || s[0] == '\\' {
            assert(text.skip(2) =~= tail);
        } else {
            assert(text.skip(1) =~= tail);
        }
        assert(seq![s[0]] + short =~= s);
        if s[0] == '\\' {
            assert(s.contains('\\'));
        }
    }
}

/// A literal reads back as its value, whatever it holds and whatever follows
/// it: a plain one when the value has no backslash, and else an escape string.
pub proof fn literal_reads_back(value: Seq<char>, rest: Seq<char>)
    requires
        rest.len() > 0 ==> rest[0] != '\'',
    ensures
        ({
            let text = literal(value) + rest;
            if value.contains('\\') {
                &&& text.len() > 3
                &&& text.take(3) == seq![' ', 'E', '\'']
                &&& read_escaped(text.skip(3)) == Some((value, rest))
            } else {
                &&& text.len() > 1
                &&& text[0] == '\''
                &&& read_quoted(text.skip(1), '\'') == Some((value, rest))
            }
        }),
{
    lemma_read_escaped(value, rest);
    let text = literal(value) + rest;
    let body = literal_body(value) + seq!['\''] + rest;
    if value.contains('\\') {
        assert(text.take(3) =~= seq![' ', 'E', '\'']);
        assert(text.skip(3) =~= body);
    } else {
        assert(text.skip(1) =~= body);
    }
}

/// Different cells are written differently; in particular NULL is not a text.
pub proof fn cells_differ(a: Option<Seq<char>>, b: Option<Seq<char>>)
    requires
        cell_sql(a) == cell_sql(b),
    ensures
        a == b,
{
    reveal_strlit("NULL");
    match (a, b) {
        (Some(x), Some(y)) => {
            literal_reads_back(x, Seq::empty());
            literal_reads_back(y, Seq::empty());
            assert(literal(x) + Seq::<char>::empty() =~= literal(x));
            assert(literal(y) + Seq::<char>::empty() =~= literal(y));
            if x.contains('\\') != y.contains('\\') {
                assert(literal(x)[0] == literal(y)[0]);
                assert(literal(x).take(3)[0] == literal(x)[0]);
                assert(literal(y).take(3)[0] == literal(y)[0]);
            }
        },
        (Some(x), None) => {
            assert(literal(x)[0] == 'N');
        },
        (None, Some(y)) => {
            assert(literal(y)[0] == 'N');
        },
        (None, None) => {},
    }
}

/// NULL is written as the keyword.
pub proof fn null_is_the_keyword(cell: Option<Seq<char>>)
    ensures
        cell is None <==> cell_sql(cell) == "NULL"@,
        cell matches Some(value) ==> cell_sql(cell) == literal(value),
{
    if cell is Some {
        lemma_literal_is_not_null(cell->0);
    }
}

proof fn lemma_literal_is_not_null(value: Seq<char>)
    ensures
        literal(value) != "NULL"@,
{
    reveal_strlit("NULL");
    assert(literal(value)[0] == '\'' || literal(value)[0] == ' ');
}

} // verus!
