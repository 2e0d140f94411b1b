//! What comparisons, casts and predicates mean.
use vstd::prelude::*;

use crate::catalog::column_position;
use crate::catalog::lemma_column_position;
use crate::catalog::ColumnMetadata;
use crate::catalog::RowView;
use crate::catalog::TableMetadata;
use crate::query::constraint_column;
use crate::query::constraint_text_holds;
use crate::query::constraints_of;
use crate::query::matches_locally;
use crate::query::predicate_truth;
use crate::query::row_matches;
use crate::query::QueryConstraints;
use crate::query::RelationConstraints;
use crate::query::RowPredicate;
use crate::query::TableConstraint;
use crate::query::UpdateQuery;
use crate::text::decimal;
use crate::text_laws::numeral_spells_its_number;
use crate::values::bool_value;
use crate::values::coerced;
use crate::values::digit_value;
use crate::values::digits_value;
use crate::values::integer_value;
use crate::values::literal_holds;
use crate::values::spelling_fold;
use crate::values::spells;
use crate::values::text_holds;
use crate::values::text_less;
use crate::values::unsigned_value;
use crate::values::BinaryOp;
use crate::values::CastTarget;
use crate::values::LiteralView;

verus! {

/// Numbers compare as numbers do.
pub proof fn numbers_compare_as_numbers(x: int, y: int)
    ensures
        ({
            let (a, b) = (LiteralView::Integer(x), LiteralView::Integer(y));
            &&& literal_holds(a, BinaryOp::Equal, b) == (x == y)
            &&& literal_holds(a, BinaryOp::NotEqual, b) == (x != y)
            &&& literal_holds(a, BinaryOp::LessThan, b) == (x < y)
            &&& literal_holds(a, BinaryOp::LessThanOrEqual, b) == (x <= y)
            &&& literal_holds(a, BinaryOp::GreaterThan, b) == (x > y)
            &&& literal_holds(a, BinaryOp::GreaterThanOrEqual, b) == (x >= y)
        }),
{
}

/// False comes before true.
pub proof fn false_comes_before_true(x: bool, y: bool)
    ensures
        ({
            let (a, b) = (LiteralView::Boolean(x), LiteralView::Boolean(y));
            &&& literal_holds(a, BinaryOp::Equal, b) == (x == y)
            &&& literal_holds(a, BinaryOp::NotEqual, b) == (x != y)
            &&& literal_holds(a, BinaryOp::LessThan, b) == (!x && y)
            &&& literal_holds(a, BinaryOp::LessThanOrEqual, b) == (!x || y)
            &&& literal_holds(a, BinaryOp::GreaterThan, b) == (x && !y)
            &&& literal_holds(a, BinaryOp::GreaterThanOrEqual, b) == (x || !y)
        }),
{
}

/// Where two texts first differ, or one of them ends.
pub open spec fn first_difference(a: Seq<char>, b: Seq<char>, k: int) -> bool {
    &&& 0 <= k <= a.len()
    &&& k <= b.len()
    &&& a.take(k) == b.take(k)
    &&& k == a.len() || k == b.len() || a[k] != b[k]
}

/// Texts compare by the first character in which they differ; one that begins
/// the other comes first. Equality is equality of every character.
pub proof fn texts_compare_by_first_difference(a: Seq<char>, b: Seq<char>, k: int)
    requires
        first_difference(a, b, k),
    ensures
        ({
            let (x, y) = (LiteralView::Text(a), LiteralView::Text(b));
            let less = k < b.len() && (k == a.len() || a[k] < b[k]);
            &&& literal_holds(x, BinaryOp::Equal, y) == (a == b)
            &&& literal_holds(x, BinaryOp::NotEqual, y) == (a != b)
            &&& literal_holds(x, BinaryOp::LessThan, y) == less
            &&& literal_holds(x, BinaryOp::LessThanOrEqual, y) == (less || a == b)
            &&& literal_holds(x, BinaryOp::GreaterThan, y) == (!less && a != b)
            &&& literal_holds(x, BinaryOp::GreaterThanOrEqual, y) == !less
        }),
{
    lemma_text_less(a, b, k);
    if a == b && k < b.len() {
        assert(k == a.len() || a[k] != b[k]);
    }
}

proof fn lemma_text_less(a: Seq<char>, b: Seq<char>, k: int)
    requires
        first_difference(a, b, k),
    ensures
        text_less(a, b) == (k < b.len() && (k == a.len() || a[k] < b[k])),
    decreases k,
{
    if k > 0 {
        assert(a.take(k)[0] == b.take(k)[0]);
        let (x, y) = (a.drop_first(), b.drop_first());
        assert(x.take(k - 1) =~= a.take(k).drop_first());
        assert(y.take(k - 1) =~= b.take(k).drop_first());
        lemma_text_less(x, y, k - 1);
    }
}

/// Any two texts differ first somewhere, or are equal.
pub proof fn texts_have_a_first_difference(a: Seq<char>, b: Seq<char>)
    ensures
        exists|k: int| first_difference(a, b, k),
    decreases a.len(),
{
    if a.len() == 0 || b.len() == 0 || a[0] != b[0] {
        assert(a.take(0) =~= b.take(0));
        assert(first_difference(a, b, 0));
    } else {
        let (x, y) = (a.drop_first(), b.drop_first());
        texts_have_a_first_difference(x, y);
        let k = choose|k: int| first_difference(x, y, k);
        assert(a.take(k + 1) =~= seq![a[0]] + x.take(k));
        assert(b.take(k + 1) =~= seq![b[0]] + y.take(k));
        assert(first_difference(a, b, k + 1));
    }
}

/// Values of different types, and NULL, meet no comparison.
pub proof fn unlike_values_never_compare(a: LiteralView, op: BinaryOp, b: LiteralView)
    requires
        a is Null || b is Null || (a is Boolean) != (b is Boolean) || (a is Integer) != (
        b is Integer),
    ensures
        !literal_holds(a, op, b),
{
}

/// Every operator has its opposite: of two values that compare, exactly one of
/// the two holds. And a comparison turned round holds the other way round.
pub proof fn operators_have_opposites(a: LiteralView, b: LiteralView)
    requires
        (a is Boolean && b is Boolean) || (a is Integer && b is Integer) || (a is Text
            && b is Text),
    ensures
        literal_holds(a, BinaryOp::Equal, b) != literal_holds(a, BinaryOp::NotEqual, b),
        literal_holds(a, BinaryOp::LessThan, b) != literal_holds(
            a,
            BinaryOp::GreaterThanOrEqual,
            b,
        ),
        literal_holds(a, BinaryOp::GreaterThan, b) != literal_holds(
            a,
            BinaryOp::LessThanOrEqual,
            b,
        ),
        literal_holds(a, BinaryOp::LessThan, b) == literal_holds(b, BinaryOp::GreaterThan, a),
        literal_holds(a, BinaryOp::LessThanOrEqual, b) == literal_holds(
            b,
            BinaryOp::GreaterThanOrEqual,
            a,
        ),
        literal_holds(a, BinaryOp::Equal, b) == literal_holds(b, BinaryOp::Equal, a),
{
    if let (LiteralView::Text(x), LiteralView::Text(y)) = (a, b) {
        texts_have_a_first_difference(x, y);
        let k = choose|k: int| first_difference(x, y, k);
        assert(first_difference(y, x, k));
        lemma_text_less(x, y, k);
        lemma_text_less(y, x, k);
        if x != y && k == x.len() && k == y.len() {
            assert(x.take(k) =~= x);
            assert(y.take(k) =~= y);
        }
        if x == y && k < x.len() {
            assert(x[k] != y[k]);
        }
    }
}

/// A row's text compares with a literal as the value it spells.
pub proof fn row_text_compares_as_its_value(text: Seq<char>, op: BinaryOp)
    ensures
        forall|n: int, v: int|
            integer_value(text) == Some(v) && i64::MIN <= v <= i64::MAX ==> #[trigger] text_holds(
                LiteralView::Integer(n),
                text,
                op,
            ) == #[trigger] literal_holds(LiteralView::Integer(v), op, LiteralView::Integer(n)),
        forall|b: bool, v: bool|
            bool_value(text) == Some(v) ==> #[trigger] text_holds(LiteralView::Boolean(b), text, op)
                == #[trigger] literal_holds(LiteralView::Boolean(v), op, LiteralView::Boolean(b)),
        forall|s: Seq<char>| #[trigger]
            text_holds(LiteralView::Text(s), text, op) == literal_holds(
                LiteralView::Text(text),
                op,
                LiteralView::Text(s),
            ),
        forall|n: int|
            integer_value(text) is None ==> !#[trigger] text_holds(
                LiteralView::Integer(n),
                text,
                op,
            ),
        forall|b: bool|
            bool_value(text) is None ==> !#[trigger] text_holds(LiteralView::Boolean(b), text, op),
        !text_holds(LiteralView::Null, text, op),
{
}

/// A digit more makes ten times the number and the digit; what is no digit
/// spells no number; and a sign goes before the digits, once.
pub proof fn digits_count_in_tens(s: Seq<char>, c: char)
    ensures
        digits_value(Seq::<char>::empty()) == Some(0nat),
        digits_value(s.push(c)) == (match digits_value(s) {
            Some(v) => if '0' <= c && c <= '9' {
                Some((v * 10 + (c as int - 48)) as nat)
            } else {
                None
            },
            None => None,
        }),
        integer_value(Seq::<char>::empty()) is None,
        integer_value(seq!['-']) is None,
        integer_value(seq!['+']) is None,
        s.len() > 0 ==> integer_value(seq!['-'] + s) == (match digits_value(s) {
            Some(v) => Some(-(v as int)),
            None => None,
        }),
        s.len() > 0 ==> integer_value(seq!['+'] + s) == (match digits_value(s) {
            Some(v) => Some(v as int),
            None => None,
        }),
        s.len() > 0 && s[0] != '-' && s[0] != '+' ==> integer_value(s) == (match digits_value(s) {
            Some(v) => Some(v as int),
            None => None,
        }),
        unsigned_value(Seq::<char>::empty()) is None,
        unsigned_value(seq!['+']) is None,
        s.len() > 0 && s[0] == '-' ==> unsigned_value(s) is None,
{
    assert(s.push(c).drop_last() =~= s);
    assert((seq!['-'] + s).drop_first() =~= s);
    assert((seq!['+'] + s).drop_first() =~= s);
    assert(seq!['-'].drop_first() =~= Seq::<char>::empty());
    assert(seq!['+'].drop_first() =~= Seq::<char>::empty());
    if s.len() > 0 && s[0] == '-' {
        lemma_bad_digit(s, 0);
    }
}

proof fn lemma_bad_digit(s: Seq<char>, k: int)
    requires
        0 <= k < s.len(),
        digit_value(s[k]) is None,
    ensures
        digits_value(s) is None,
    decreases s.len(),
{
    if k < s.len() - 1 {
        lemma_bad_digit(s.drop_last(), k);
    }
}

/// A cast keeps every value of its type and refuses every text that spells
/// none. A number is cast if it fits.
pub proof fn cast_keeps_what_fits(n: nat, text: Seq<char>)
    ensures
        coerced(CastTarget::Int8, decimal(n)) == (if n <= i64::MAX {
            Some(LiteralView::Integer(n as int))
        } else {
            None
        }),
        coerced(CastTarget::Int8, seq!['-'] + decimal(n)) == (if n <= i64::MAX + 1 {
            Some(LiteralView::Integer(-(n as int)))
        } else {
            None
        }),
        coerced(CastTarget::Int4, decimal(n)) == (if n <= i32::MAX {
            Some(LiteralView::Integer(n as int))
        } else {
            None
        }),
        coerced(CastTarget::Int4, seq!['-'] + decimal(n)) == (if n <= i32::MAX + 1 {
            Some(LiteralView::Integer(-(n as int)))
        } else {
            None
        }),
        integer_value(text) is None ==> coerced(CastTarget::Int4, text) is None && coerced(
            CastTarget::Int8,
            text,
        ) is None,
        coerced(CastTarget::Text, text) == Some(LiteralView::Text(text)),
        coerced(CastTarget::Bool, text) == (match bool_value(text) {
            Some(b) => Some(LiteralView::Boolean(b)),
            None => None,
        }),
{
    numeral_spells_its_number(n);
}

/// Whether a text is written as year, month and day.
pub open spec fn is_date(s: Seq<char>) -> bool {
    &&& s.len() == 10
    &&& forall|i: int|
        0 <= i < 10 ==> if i == 4 || i == 7 {
            #[trigger] s[i] == '-'
        } else {
            '0' <= s[i] <= '9'
        }
}

/// A date is cast to itself, with or without a time behind it, and nothing but
/// a date is.
pub proof fn cast_keeps_the_date(date: Seq<char>, time: Seq<char>, text: Seq<char>)
    ensures
        is_date(date) ==> coerced(CastTarget::Date, date) == Some(LiteralView::Text(date)),
        is_date(date) && time.len() > 0 && (time[0] == ' ' || time[0] == 'T') ==> coerced(
            CastTarget::Date,
            date + time,
        ) == Some(LiteralView::Text(date)),
        coerced(CastTarget::Date, text) matches Some(v) ==> v is Text && text.len() >= 10 && v
            == LiteralView::Text(text.take(10)) && is_date(text.take(10)) && (text.len() > 10
            ==> text[10] == ' ' || text[10] == 'T'),
{
    if is_date(date) {
        assert(date[0] <= '9' && date[1] <= '9' && date[2] <= '9' && date[3] <= '9');
        assert(date[4] == '-' && date[7] == '-');
        assert(date[5] <= '9' && date[6] <= '9' && date[8] <= '9' && date[9] <= '9');
        assert(date.take(10) =~= date);
        assert((date + time).take(10) =~= date);
    }
    if coerced(CastTarget::Date, text) is Some {
        let d = text.take(10);
        assert forall|i: int| 0 <= i < 10 implies if i == 4 || i == 7 {
            #[trigger] d[i] == '-'
        } else {
            '0' <= d[i] <= '9'
        } by {
            assert(d[i] == text[i]);
        }
    }
}

/// Whether `lower` is a character in lower case.
pub open spec fn is_lower_case_of(c: char, lower: char) -> bool {
    if 'A' <= c && c <= 'Z' {
        lower as int == c as int + 32
    } else {
        lower == c
    }
}

/// Letters of the spellings are folded to lower case, and nothing else is.
proof fn lemma_fold(s: Seq<char>, lower: Seq<char>)
    requires
        s.len() == lower.len(),
        forall|i: int| 0 <= i < s.len() ==> is_lower_case_of(#[trigger] s[i], lower[i]),
    ensures
        forall|i: int|
            #![trigger spelling_fold(s[i])]
            0 <= i < s.len() && is_word_letter(lower[i]) ==> spelling_fold(s[i]) == lower[i],
        forall|i: int|
            #![trigger spelling_fold(s[i])]
            0 <= i < s.len() && is_word_letter(spelling_fold(s[i])) ==> lower[i] == spelling_fold(
                s[i],
            ),
{
    assert forall|i: int|
        #![trigger spelling_fold(s[i])]
        0 <= i < s.len() implies (is_word_letter(lower[i]) ==> spelling_fold(s[i]) == lower[i])
        && (is_word_letter(spelling_fold(s[i])) ==> lower[i] == spelling_fold(s[i])) by {
        assert(is_lower_case_of(s[i], lower[i]));
    }
}

/// The characters of the spellings.
pub open spec fn is_word_letter(c: char) -> bool {
    c == 'a' || c == 'e' || c == 'f' || c == 'l' || c == 'n' || c == 'o' || c == 'r' || c == 's'
        || c == 't' || c == 'u' || c == 'y' || c == '0' || c == '1'
}

/// The spellings of true.
pub open spec fn true_words() -> Seq<Seq<char>> {
    seq!["t"@, "tr"@, "tru"@, "true"@, "y"@, "ye"@, "yes"@, "on"@, "1"@]
}

/// The spellings of false.
pub open spec fn false_words() -> Seq<Seq<char>> {
    seq!["f"@, "fa"@, "fal"@, "fals"@, "false"@, "n"@, "no"@, "of"@, "off"@, "0"@]
}

/// Each spelling means its truth value, in whatever case its letters are.
pub proof fn spellings_mean_their_truth(s: Seq<char>, lower: Seq<char>)
    requires
        s.len() == lower.len(),
        forall|i: int| 0 <= i < s.len() ==> is_lower_case_of(#[trigger] s[i], lower[i]),
    ensures
        true_words().contains(lower) ==> bool_value(s) == Some(true),
        false_words().contains(lower) ==> bool_value(s) == Some(false),
        lower == "o"@ ==> bool_value(s) is None,
{
    lemma_words();
    lemma_fold(s, lower);
    if true_words().contains(lower) {
        let k = choose|k: int| 0 <= k < true_words().len() && true_words()[k] == lower;
        if k <= 3 {
            assert(spells(s, "true"@, 1));
        } else if k <= 6 {
            assert(spells(s, "yes"@, 1));
        } else if k == 7 {
            assert(spells(s, "on"@, 2));
        } else {
            assert(spells(s, "1"@, 1));
        }
    }
    if false_words().contains(lower) {
        let k = choose|k: int| 0 <= k < false_words().len() && false_words()[k] == lower;
        assert(spelling_fold(s[0]) == lower[0]);
        if k > 0 {
            assert(s.len() > 1 ==> spelling_fold(s[1]) == lower[1]);
        }
        if k <= 4 {
            assert(spells(s, "false"@, 1));
        } else if k <= 6 {
            assert(spells(s, "no"@, 1));
        } else if k <= 8 {
            assert(spells(s, "off"@, 2));
        } else {
            assert(spells(s, "0"@, 1));
        }
        assert(!spells(s, "true"@, 1));
        assert(!spells(s, "yes"@, 1));
        assert(!spells(s, "on"@, 2)) by {
            if s.len() == 2 {
                assert(spelling_fold(s[1]) == lower[1]);
            }
        }
        assert(!spells(s, "1"@, 1));
    }
    if lower == "o"@ {
        assert(spelling_fold(s[0]) == 'o');
    }
}

proof fn lemma_words()
    ensures
        "true"@ == seq!['t', 'r', 'u', 'e'],
        "tru"@ == seq!['t', 'r', 'u'],
        "tr"@ == seq!['t', 'r'],
        "t"@ == seq!['t'],
        "yes"@ == seq!['y', 'e', 's'],
        "ye"@ == seq!['y', 'e'],
        "y"@ == seq!['y'],
        "on"@ == seq!['o', 'n'],
        "o"@ == seq!['o'],
        "1"@ == seq!['1'],
        "false"@ == seq!['f', 'a', 'l', 's', 'e'],
        "fals"@ == seq!['f', 'a', 'l', 's'],
        "fal"@ == seq!['f', 'a', 'l'],
        "fa"@ == seq!['f', 'a'],
        "f"@ == seq!['f'],
        "no"@ == seq!['n', 'o'],
        "n"@ == seq!['n'],
        "off"@ == seq!['o', 'f', 'f'],
        "of"@ == seq!['o', 'f'],
        "0"@ == seq!['0'],
{
    reveal_strlit("true");
    reveal_strlit("tru");
    reveal_strlit("tr");
    reveal_strlit("t");
    reveal_strlit("yes");
    reveal_strlit("ye");
    reveal_strlit("y");
    reveal_strlit("on");
    reveal_strlit("o");
    reveal_strlit("1");
    reveal_strlit("false");
    reveal_strlit("fals");
    reveal_strlit("fal");
    reveal_strlit("fa");
    reveal_strlit("f");
    reveal_strlit("no");
    reveal_strlit("n");
    reveal_strlit("off");
    reveal_strlit("of");
    reveal_strlit("0");
    assert("true"@ =~= seq!['t', 'r', 'u', 'e']);
    assert("tru"@ =~= seq!['t', 'r', 'u']);
    assert("tr"@ =~= seq!['t', 'r']);
    assert("t"@ =~= seq!['t']);
    assert("yes"@ =~= seq!['y', 'e', 's']);
    assert("ye"@ =~= seq!['y', 'e']);
    assert("y"@ =~= seq!['y']);
    assert("on"@ =~= seq!['o', 'n']);
    assert("o"@ =~= seq!['o']);
    assert("1"@ =~= seq!['1']);
    assert("false"@ =~= seq!['f', 'a', 'l', 's', 'e']);
    assert("fals"@ =~= seq!['f', 'a', 'l', 's']);
    assert("fal"@ =~= seq!['f', 'a', 'l']);
    assert("fa"@ =~= seq!['f', 'a']);
    assert("f"@ =~= seq!['f']);
    assert("no"@ =~= seq!['n', 'o']);
    assert("n"@ =~= seq!['n']);
    assert("off"@ =~= seq!['o', 'f', 'f']);
    assert("of"@ =~= seq!['o', 'f']);
    assert("0"@ =~= seq!['0']);
}

/// Nothing else spells a truth value.
pub proof fn truth_is_spelled_no_other_way(s: Seq<char>, lower: Seq<char>)
    requires
        s.len() == lower.len(),
        forall|i: int| 0 <= i < s.len() ==> is_lower_case_of(#[trigger] s[i], lower[i]),
    ensures
        bool_value(s) == Some(true) ==> true_words().contains(lower),
        bool_value(s) == Some(false) ==> false_words().contains(lower),
{
    lemma_words();
    lemma_fold(s, lower);
    assert forall|word: Seq<char>, least: int| #[trigger]
        spells(s, word, least) && (forall|i: int|
            0 <= i < word.len() ==> is_word_letter(#[trigger] word[i])) implies lower == word.take(s.len() as int) by {
        assert forall|i: int| 0 <= i < s.len() implies lower[i] == word[i] by {
            assert(spelling_fold(s[i]) == word[i]);
        }
        assert(lower =~= word.take(s.len() as int));
    }
    let t = true_words();
    let f = false_words();
    if bool_value(s) == Some(true) {
        if spells(s, "true"@, 1) {
            assert("true"@.take(1) =~= "t"@);
            assert("true"@.take(2) =~= "tr"@);
            assert("true"@.take(3) =~= "tru"@);
            assert("true"@.take(4) =~= "true"@);
            assert(t[0] == "t"@ && t[1] == "tr"@ && t[2] == "tru"@ && t[3] == "true"@);
        } else if spells(s, "yes"@, 1) {
            assert("yes"@.take(1) =~= "y"@);
            assert("yes"@.take(2) =~= "ye"@);
            assert("yes"@.take(3) =~= "yes"@);
            assert(t[4] == "y"@ && t[5] == "ye"@ && t[6] == "yes"@);
        } else if spells(s, "on"@, 2) {
            assert("on"@.take(2) =~= "on"@);
            assert(t[7] == "on"@);
        } else {
            assert("1"@.take(1) =~= "1"@);
            assert(t[8] == "1"@);
        }
    }
    if bool_value(s) == Some(false) {
        if spells(s, "false"@, 1) {
            assert("false"@.take(1) =~= "f"@);
            assert("false"@.take(2) =~= "fa"@);
            assert("false"@.take(3) =~= "fal"@);
            assert("false"@.take(4) =~= "fals"@);
            assert("false"@.take(5) =~= "false"@);
            assert(f[0] == "f"@ && f[1] == "fa"@ && f[2] == "fal"@ && f[3] == "fals"@ && f[4]
                == "false"@);
        } else if spells(s, "no"@, 1) {
            assert("no"@.take(1) =~= "n"@);
            assert("no"@.take(2) =~= "no"@);
            assert(f[5] == "n"@ && f[6] == "no"@);
        } else if spells(s, "off"@, 2) {
            assert("off"@.take(2) =~= "of"@);
            assert("off"@.take(3) =~= "off"@);
            assert(f[7] == "of"@ && f[8] == "off"@);
        } else {
            assert("0"@.take(1) =~= "0"@);
            assert(f[9] == "0"@);
        }
    }
}

/// A truth value by its rank: false, unknown, true.
pub open spec fn rank(truth: Option<bool>) -> int {
    match truth {
        Some(false) => 0,
        None => 1,
        Some(true) => 2,
    }
}

/// Connectives mean what SQL says: AND is the lesser of the two truths, OR the
/// greater, and NOT turns them round. So OR is true exactly if one side is, AND
/// exactly if both are, and the unknown stays so unless the other side decides.
pub proof fn connectives_mean_what_they_say(
    a: Box<RowPredicate>,
    b: Box<RowPredicate>,
    row: RowView,
)
    ensures
        ({
            let (x, y) = (predicate_truth(*a, row), predicate_truth(*b, row));
            let and = predicate_truth(RowPredicate::And(a, b), row);
            let or = predicate_truth(RowPredicate::Or(a, b), row);
            let not = predicate_truth(RowPredicate::Not(a), row);
            &&& rank(and) == if rank(x) < rank(y) {
                rank(x)
            } else {
                rank(y)
            }
            &&& rank(or) == if rank(x) > rank(y) {
                rank(x)
            } else {
                rank(y)
            }
            &&& rank(not) == 2 - rank(x)
            &&& or == Some(true) <==> x == Some(true) || y == Some(true)
            &&& and == Some(true) <==> x == Some(true) && y == Some(true)
            &&& or == Some(false) <==> x == Some(false) && y == Some(false)
            &&& and == Some(false) <==> x == Some(false) || y == Some(false)
        }),
{
}

/// Negation carries over the connectives: NOT (a OR b) is NOT a AND NOT b, and
/// NOT (a AND b) is NOT a OR NOT b.
pub proof fn negation_carries_over_connectives(
    a: Box<RowPredicate>,
    b: Box<RowPredicate>,
    row: RowView,
)
    ensures
        predicate_truth(RowPredicate::Not(Box::new(RowPredicate::Or(a, b))), row)
            == predicate_truth(
            RowPredicate::And(
                Box::new(RowPredicate::Not(a)),
                Box::new(RowPredicate::Not(b)),
            ),
            row,
        ),
        predicate_truth(RowPredicate::Not(Box::new(RowPredicate::And(a, b))), row)
            == predicate_truth(
            RowPredicate::Or(Box::new(RowPredicate::Not(a)), Box::new(RowPredicate::Not(b))),
            row,
        ),
        predicate_truth(RowPredicate::Not(Box::new(RowPredicate::Not(a))), row) == predicate_truth(
            *a,
            row,
        ),
{
    reveal_with_fuel(predicate_truth, 4);
}

/// A comparison with NULL, on either side, is unknown; any other has the truth
/// of the comparison of the cell with the literal. IS NULL is never unknown, and
/// true exactly of a cell that is NULL or not there.
pub proof fn comparisons_with_null_are_unknown(
    column: usize,
    op: BinaryOp,
    literal: crate::values::LiteralValue,
    row: RowView,
)
    ensures
        ({
            let p = predicate_truth(RowPredicate::Comparison(column, op, literal), row);
            let null = predicate_truth(RowPredicate::IsNull(column), row);
            if column < row.len() && row[column as int] is Some {
                &&& null == Some(false)
                &&& literal@ is Null ==> p is None
                &&& !(literal@ is Null) ==> p == Some(
                    text_holds(literal@, row[column as int]->0, op),
                )
            } else {
                &&& null == Some(true)
                &&& p is None
            }
        }),
{
}

/// A query that is evaluated here holds a row exactly if its WHERE clause is
/// true of it: not when it is false, and not when it is unknown. Without a WHERE
/// clause it holds every row.
pub proof fn query_holds_what_its_where_accepts(q: UpdateQuery, row: RowView)
    ensures
        match q.compiled_where {
            Some(p) => matches_locally(q, row) == (rank(predicate_truth(p, row)) == 2),
            None => matches_locally(q, row),
        },
{
}

/// Whether a relation's row meets a constraint: the constrained column's cell is
/// a value that the constraint accepts. A constraint on a column that the
/// relation or the row does not have is not held against it.
pub open spec fn meets(c: TableConstraint, columns: Seq<ColumnMetadata>, row: RowView) -> bool {
    forall|i: int|
        #![trigger columns[i]]
        0 <= i < columns.len() && columns[i].name@ == constraint_column(c) && (forall|j: int|
            0 <= j < i ==> (#[trigger] columns[j]).name@ != constraint_column(c)) && 0
            <= columns[i].position - 1 < row.len() && columns[i].position > 0 ==> row[columns[i].position
            - 1] is Some && constraint_text_holds(c, row[columns[i].position - 1]->0)
}

/// A row matches a query exactly if it meets every constraint that the query
/// puts on its relation: one that it does not meet is enough to leave it out,
/// and NULL meets none.
pub proof fn row_matches_iff_it_meets_all(
    constraints: QueryConstraints,
    table: TableMetadata,
    row: RowView,
    at: int,
)
    requires
        0 <= at < constraints.table_constraints@.len(),
        constraints.table_constraints@[at].table@ == table.name@,
        forall|j: int|
            0 <= j < at ==> (#[trigger] constraints.table_constraints@[j]).table@ != table.name@,
        forall|i: int| 0 <= i < table.columns@.len() ==> (#[trigger] table.columns@[i]).position > 0,
    ensures
        row_matches(constraints, table, row) <==> forall|k: int|
            #![trigger constraints.table_constraints@[at].constraints@[k]]
            0 <= k < constraints.table_constraints@[at].constraints@.len() ==> meets(
                constraints.table_constraints@[at].constraints@[k],
                table.columns@,
                row,
            ),
{
    lemma_constraints_at(constraints.table_constraints@, table.name@, at);
    let list = constraints.table_constraints@[at].constraints@;
    assert forall|k: int| 0 <= k < list.len() implies crate::query::constraint_holds(
        #[trigger] list[k],
        table.columns@,
        row,
    ) == meets(list[k], table.columns@, row) by {
        lemma_meets(list[k], table.columns@, row);
    }
}

/// A query that puts no constraint on the relation matches each of its rows.
pub proof fn unconstrained_relation_matches(
    constraints: QueryConstraints,
    table: TableMetadata,
    row: RowView,
)
    requires
        forall|j: int|
            0 <= j < constraints.table_constraints@.len() ==> (
            #[trigger] constraints.table_constraints@[j]).table@ != table.name@,
    ensures
        row_matches(constraints, table, row),
{
    lemma_constraints_none(constraints.table_constraints@, table.name@);
}

proof fn lemma_constraints_at(list: Seq<RelationConstraints>, table: Seq<char>, at: int)
    requires
        0 <= at < list.len(),
        list[at].table@ == table,
        forall|j: int| 0 <= j < at ==> (#[trigger] list[j]).table@ != table,
    ensures
        constraints_of(list, table) == Some(list[at].constraints@),
    decreases list.len(),
{
    if at > 0 {
        assert(list[0].table@ != table);
        let rest = list.drop_first();
        assert forall|j: int| 0 <= j < at - 1 implies (#[trigger] rest[j]).table@ != table by {
            assert(list[j + 1].table@ != table);
        }
        lemma_constraints_at(rest, table, at - 1);
    }
}

proof fn lemma_constraints_none(list: Seq<RelationConstraints>, table: Seq<char>)
    requires
        forall|j: int| 0 <= j < list.len() ==> (#[trigger] list[j]).table@ != table,
    ensures
        constraints_of(list, table) is None,
    decreases list.len(),
{
    if list.len() > 0 {
        assert(list[0].table@ != table);
        let rest = list.drop_first();
        assert forall|j: int| 0 <= j < rest.len() implies (#[trigger] rest[j]).table@ != table by {
            assert(list[j + 1].table@ != table);
        }
        lemma_constraints_none(rest, table);
    }
}

proof fn lemma_meets(c: TableConstraint, columns: Seq<ColumnMetadata>, row: RowView)
    requires
        forall|i: int| 0 <= i < columns.len() ==> (#[trigger] columns[i]).position > 0,
    ensures
        crate::query::constraint_holds(c, columns, row) == meets(c, columns, row),
{
    let name = constraint_column(c);
    lemma_column_position(columns, name);
    match column_position(columns, name) {
        Some(i) => {
            assert(columns[i].name@ == name);
            assert(columns[i].index_spec() == columns[i].position - 1);
            assert forall|k: int|
                #![trigger columns[k]]
                0 <= k < columns.len() && columns[k].name@ == name && (forall|j: int|
                    0 <= j < k ==> (#[trigger] columns[j]).name@ != name) implies k == i by {
                if k > i {
                    assert(columns[i].name@ != name);
                }
            }
        },
        None => {},
    }
}

/// A list of values accepts a text exactly if one of them equals it; a
/// comparison and a cast accept it as their operator says.
pub proof fn constraints_accept_as_they_say(
    column: String,
    literals: Vec<crate::values::LiteralValue>,
    cast: CastTarget,
    op: BinaryOp,
    literal: crate::values::LiteralValue,
    text: Seq<char>,
)
    ensures
        constraint_text_holds(TableConstraint::AnyOf(column, literals), text) <==> exists|i: int|
            0 <= i < literals@.len() && constraint_text_holds(
                TableConstraint::Comparison(column, BinaryOp::Equal, #[trigger] literals@[i]),
                text,
            ),
        constraint_text_holds(TableConstraint::Comparison(column, op, literal), text)
            == text_holds(literal@, text, op),
        constraint_text_holds(TableConstraint::CastComparison(column, cast, op, literal), text)
            <==> (coerced(cast, text) matches Some(v) && literal_holds(v, op, literal@)),
{
    assert forall|i: int| 0 <= i < literals@.len() implies constraint_text_holds(
        TableConstraint::Comparison(column, BinaryOp::Equal, #[trigger] literals@[i]),
        text,
    ) == text_holds(literals@[i]@, text, BinaryOp::Equal) by {}
    let any = constraint_text_holds(TableConstraint::AnyOf(column, literals), text);
    let one = exists|i: int|
        0 <= i < literals@.len() && constraint_text_holds(
            TableConstraint::Comparison(column, BinaryOp::Equal, #[trigger] literals@[i]),
            text,
        );
    assert(any ==> one);
    if one {
        let i = choose|i: int|
            0 <= i < literals@.len() && constraint_text_holds(
                TableConstraint::Comparison(column, BinaryOp::Equal, #[trigger] literals@[i]),
                text,
            );
        let c = TableConstraint::AnyOf(column, literals);
        let list = (c->AnyOf_1)@;
        assert(list == literals@);
        assert(0 <= i < list.len() && text_holds(list[i]@, text, BinaryOp::Equal));
        assert(constraint_text_holds(c, text));
    }
}

} // verus!
