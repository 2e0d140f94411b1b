//! Literals of cached queries, and how a row's text compares with them.
use vstd::prelude::*;
use vstd::string::*;

verus! {

/// A literal of a query's WHERE clause.
#[derive(Clone, Debug)]
pub enum LiteralValue {
    Null,
    Boolean(bool),
    Integer(i64),
    String(String),
}

/// A comparison operator.
#[derive(Clone, Copy, Debug, PartialEq, Eq, Structural)]
pub enum BinaryOp {
    Equal,
    NotEqual,
    LessThan,
    LessThanOrEqual,
    GreaterThan,
    GreaterThanOrEqual,
}

/// The target of a cast the writer evaluates itself.
#[derive(Clone, Copy, Debug, PartialEq, Eq, Structural)]
pub enum CastTarget {
    Int4,
    Int8,
    Bool,
    Text,
    Date,
}

/// Whether `op` holds between two values of which the first is smaller
/// (`less`), equal (`equal`), or neither.
pub open spec fn op_holds(op: BinaryOp, less: bool, equal: bool) -> bool {
    match op {
        BinaryOp::Equal => equal,
        BinaryOp::NotEqual => !equal,
        BinaryOp::LessThan => less && !equal,
        BinaryOp::LessThanOrEqual => less || equal,
        BinaryOp::GreaterThan => !less && !equal,
        BinaryOp::GreaterThanOrEqual => !less || equal,
    }
}

fn op_decide(op: BinaryOp, less: bool, equal: bool) -> (holds: bool)
    ensures
        holds == op_holds(op, less, equal),
{
    match op {
        BinaryOp::Equal => equal,
        BinaryOp::NotEqual => !equal,
        BinaryOp::LessThan => less && !equal,
        BinaryOp::LessThanOrEqual => less || equal,
        BinaryOp::GreaterThan => !less && !equal,
        BinaryOp::GreaterThanOrEqual => !less || equal,
    }
}

/// Lexicographic order of texts by code point.
pub open spec fn text_less(a: Seq<char>, b: Seq<char>) -> bool
    decreases a.len(),
{
    if b.len() == 0 {
        false
    } else if a.len() == 0 {
        true
    } else if a[0] == b[0] {
        text_less(a.drop_first(), b.drop_first())
    } else {
        a[0] < b[0]
    }
}

/// The characters of a text.
pub fn chars_of(s: &str) -> (v: Vec<char>)
    ensures
        v@ == s@,
{
    let mut v: Vec<char> = Vec::new();
    for c in it: s.chars()
        invariant
            v@ == s@.take(it.index()),
            it.seq() == s@,
    {
        v.push(c);
        proof {
            assert(s@.take(it.index() + 1) =~= s@.take(it.index()).push(c));
        }
    }
    proof {
        assert(s@.take(s@.len() as int) =~= s@);
    }
    v
}

/// Whether a text comes before another.
pub fn text_less_exec(a: &str, b: &str) -> (less: bool)
    ensures
        less == text_less(a@, b@),
{
    let x = chars_of(a);
    let y = chars_of(b);
    let mut i: usize = 0;
    proof {
        assert(x@.skip(0) =~= x@);
        assert(y@.skip(0) =~= y@);
    }
    while i < x.len() && i < y.len()
        invariant
            i <= x.len(),
            i <= y.len(),
            x@ == a@,
            y@ == b@,
            text_less(x@, y@) == text_less(x@.skip(i as int), y@.skip(i as int)),
        decreases x.len() - i,
    {
        proof {
            assert(x@.skip(i as int).drop_first() =~= x@.skip(i + 1));
            assert(y@.skip(i as int).drop_first() =~= y@.skip(i + 1));
        }
        if x[i] != y[i] {
            return x[i] < y[i];
        }
        i = i + 1;
    }
    i < y.len()
}

/// The value of a decimal digit.
pub open spec fn digit_value(c: char) -> Option<nat> {
    if '0' <= c && c <= '9' {
        Some((c as nat - '0' as nat) as nat)
    } else {
        None
    }
}

/// The value of a run of decimal digits; `None` when another character occurs.
pub open spec fn digits_value(s: Seq<char>) -> Option<nat>
    decreases s.len(),
{
    if s.len() == 0 {
        Some(0)
    } else {
        match (digits_value(s.drop_last()), digit_value(s.last())) {
            (Some(v), Some(d)) => Some(v * 10 + d),
            _ => None,
        }
    }
}

/// The integer a text spells: an optional sign and at least one digit.
pub open spec fn integer_value(s: Seq<char>) -> Option<int> {
    if s.len() > 0 && s[0] == '-' {
        match digits_value(s.drop_first()) {
            Some(v) => if s.len() > 1 {
                Some(-(v as int))
            } else {
                None
            },
            None => None,
        }
    } else if s.len() > 0 && s[0] == '+' {
        match digits_value(s.drop_first()) {
            Some(v) => if s.len() > 1 {
                Some(v as int)
            } else {
                None
            },
            None => None,
        }
    } else {
        match digits_value(s) {
            Some(v) => if s.len() > 0 {
                Some(v as int)
            } else {
                None
            },
            None => None,
        }
    }
}

/// The integer a text spells, when it fits 64 bits.
pub open spec fn int8_value(s: Seq<char>) -> Option<int> {
    match integer_value(s) {
        Some(v) => if i64::MIN <= v <= i64::MAX {
            Some(v)
        } else {
            None
        },
        None => None,
    }
}

/// A prefix of a run of digits has a value, and no greater one.
proof fn lemma_digits_prefix(s: Seq<char>, k: int)
    requires
        0 <= k <= s.len(),
    ensures
        digits_value(s.take(k)) is None ==> digits_value(s) is None,
        digits_value(s) matches Some(v) ==> digits_value(s.take(k)) is Some && digits_value(
            s.take(k),
        )->0 <= v,
    decreases s.len(),
{
    if k == s.len() {
        assert(s.take(k) =~= s);
    } else {
        assert(s.drop_last().take(k) =~= s.take(k));
        lemma_digits_prefix(s.drop_last(), k);
    }
}

/// The magnitude of a signed 64-bit integer is at most this.
const MAGNITUDE_MAX: u64 = 9_223_372_036_854_775_808;

/// The value of a run of decimal digits, when it is at most `max`.
fn digits_parse(chars: &Vec<char>, from: usize, max: u64) -> (value: Option<u64>)
    requires
        from <= chars@.len(),
    ensures
        match value {
            Some(v) => digits_value(chars@.skip(from as int)) == Some(v as nat) && v <= max,
            None => digits_value(chars@.skip(from as int)) matches Some(v) ==> v > max,
        },
{
    let ghost s = chars@.skip(from as int);
    let mut acc: u64 = 0;
    let mut i: usize = from;
    proof {
        assert(s.take(0) =~= Seq::<char>::empty());
    }
    while i < chars.len()
        invariant
            from <= i <= chars@.len(),
            s == chars@.skip(from as int),
            digits_value(s.take(i - from)) == Some(acc as nat),
            acc <= max,
        decreases chars@.len() - i,
    {
        let c = chars[i];
        proof {
            assert(s.take(i - from + 1).drop_last() =~= s.take(i - from));
            assert(s.take(i - from + 1).last() == c);
            lemma_digits_prefix(s, i - from + 1);
        }
        if c < '0' || c > '9' {
            return None;
        }
        let d: u64 = (c as u64) - ('0' as u64);
        if acc > max / 10 || d > max - acc * 10 {
            return None;
        }
        acc = acc * 10 + d;
        i = i + 1;
    }
    proof {
        assert(s.take(i - from) =~= s);
    }
    Some(acc)
}

/// The integer a text spells, when it fits 64 bits.
pub fn int8_parse(text: &str) -> (value: Option<i64>)
    ensures
        match value {
            Some(v) => int8_value(text@) == Some(v as int),
            None => int8_value(text@) is None,
        },
{
    let chars = chars_of(text);
    if chars.len() == 0 {
        return None;
    }
    let negative = chars[0] == '-';
    let from: usize = if negative || chars[0] == '+' {
        1
    } else {
        0
    };
    proof {
        assert(chars@.skip(1) =~= chars@.drop_first());
        assert(chars@.skip(0) =~= chars@);
    }
    if chars.len() == from {
        return None;
    }
    match digits_parse(&chars, from, MAGNITUDE_MAX) {
        None => None,
        Some(v) => {
            if negative {
                if v == MAGNITUDE_MAX {
                    Some(i64::MIN)
                } else {
                    Some(-(v as i64))
                }
            } else if v == MAGNITUDE_MAX {
                None
            } else {
                Some(v as i64)
            }
        }
    }
}

/// The number a text spells: an optional plus sign and at least one digit,
/// when it fits 64 bits.
pub open spec fn unsigned_value(s: Seq<char>) -> Option<nat> {
    let digits = if s.len() > 0 && s[0] == '+' {
        s.drop_first()
    } else {
        s
    };
    match digits_value(digits) {
        Some(v) => if digits.len() > 0 && v <= u64::MAX {
            Some(v)
        } else {
            None
        },
        None => None,
    }
}

/// The number a text spells, when it fits 64 bits.
pub fn unsigned_parse(text: &str) -> (value: Option<u64>)
    ensures
        match value {
            Some(v) => unsigned_value(text@) == Some(v as nat),
            None => unsigned_value(text@) is None,
        },
{
    let chars = chars_of(text);
    let from: usize = if chars.len() > 0 && chars[0] == '+' {
        1
    } else {
        0
    };
    proof {
        if from == 1 {
            assert(chars@.skip(1) =~= chars@.drop_first());
        } else {
            assert(chars@.skip(0) =~= chars@);
        }
    }
    if chars.len() == from {
        return None;
    }
    digits_parse(&chars, from, u64::MAX)
}

/// Lower case of the letters that boolean spellings use.
pub open spec fn spelling_fold(c: char) -> char {
    match c {
        'A' => 'a',
        'E' => 'e',
        'F' => 'f',
        'L' => 'l',
        'N' => 'n',
        'O' => 'o',
        'R' => 'r',
        'S' => 's',
        'T' => 't',
        'U' => 'u',
        'Y' => 'y',
        _ => c,
    }
}

fn spelling_fold_exec(c: char) -> (folded: char)
    ensures
        folded == spelling_fold(c),
{
    match c {
        'A' => 'a',
        'E' => 'e',
        'F' => 'f',
        'L' => 'l',
        'N' => 'n',
        'O' => 'o',
        'R' => 'r',
        'S' => 's',
        'T' => 't',
        'U' => 'u',
        'Y' => 'y',
        _ => c,
    }
}

/// Whether `s` spells a non-empty prefix of `word` of at least `least`
/// characters, ignoring case.
pub open spec fn spells(s: Seq<char>, word: Seq<char>, least: int) -> bool {
    &&& least <= s.len() <= word.len()
    &&& forall|i: int| 0 <= i < s.len() ==> spelling_fold(#[trigger] s[i]) == word[i]
}

fn spells_exec(chars: &Vec<char>, word: &str, least: usize) -> (r: bool)
    ensures
        r == spells(chars@, word@, least as int),
{
    let letters = chars_of(word);
    if chars.len() < least || chars.len() > letters.len() {
        return false;
    }
    let mut i: usize = 0;
    while i < chars.len()
        invariant
            i <= chars.len() <= letters.len(),
            letters@ == word@,
            forall|j: int| 0 <= j < i ==> spelling_fold(#[trigger] chars@[j]) == word@[j],
        decreases chars.len() - i,
    {
        if spelling_fold_exec(chars[i]) != letters[i] {
            assert(spelling_fold(chars@[i as int]) != word@[i as int]);
            return false;
        }
        i = i + 1;
    }
    true
}

/// The boolean a text spells: unambiguous prefixes of `true`, `false`, `yes`,
/// `no`, `on` and `off`, or `1` and `0`.
pub open spec fn bool_value(s: Seq<char>) -> Option<bool> {
    if spells(s, "true"@, 1) || spells(s, "yes"@, 1) || spells(s, "on"@, 2) || spells(s, "1"@, 1) {
        Some(true)
    } else if spells(s, "false"@, 1) || spells(s, "no"@, 1) || spells(s, "off"@, 2) || spells(
        s,
        "0"@,
        1,
    ) {
        Some(false)
    } else {
        None
    }
}

/// The boolean a text spells.
pub fn bool_parse(text: &str) -> (value: Option<bool>)
    ensures
        value == bool_value(text@),
{
    let chars = chars_of(text);
    if spells_exec(&chars, "true", 1) || spells_exec(&chars, "yes", 1) || spells_exec(
        &chars,
        "on",
        2,
    ) || spells_exec(&chars, "1", 1) {
        Some(true)
    } else if spells_exec(&chars, "false", 1) || spells_exec(&chars, "no", 1) || spells_exec(
        &chars,
        "off",
        2,
    ) || spells_exec(&chars, "0", 1) {
        Some(false)
    } else {
        None
    }
}

/// Whether `c` is a decimal digit.
pub open spec fn is_digit(c: char) -> bool {
    '0' <= c && c <= '9'
}

/// Whether a text starts with a `YYYY-MM-DD` date that ends there or is
/// followed by a time part.
pub open spec fn starts_with_date(s: Seq<char>) -> bool {
    &&& s.len() >= 10
    &&& is_digit(s[0]) && is_digit(s[1]) && is_digit(s[2]) && is_digit(s[3])
    &&& s[4] == '-'
    &&& is_digit(s[5]) && is_digit(s[6])
    &&& s[7] == '-'
    &&& is_digit(s[8]) && is_digit(s[9])
    &&& s.len() > 10 ==> s[10] == ' ' || s[10] == 'T'
}

fn is_digit_exec(c: char) -> (r: bool)
    ensures
        r == is_digit(c),
{
    '0' <= c && c <= '9'
}

/// The mathematical value of a literal.
pub enum LiteralView {
    Null,
    Boolean(bool),
    Integer(int),
    Text(Seq<char>),
}

impl View for LiteralValue {
    type V = LiteralView;

    open spec fn view(&self) -> LiteralView {
        match self {
            LiteralValue::Null => LiteralView::Null,
            LiteralValue::Boolean(b) => LiteralView::Boolean(*b),
            LiteralValue::Integer(n) => LiteralView::Integer(*n as int),
            LiteralValue::String(s) => LiteralView::Text(s@),
        }
    }
}

/// A row's text coerced to the cast's target; `None` when the text does not
/// spell a value of the target.
pub open spec fn coerced(cast: CastTarget, text: Seq<char>) -> Option<LiteralView> {
    match cast {
        CastTarget::Int4 => match integer_value(text) {
            Some(v) => if i32::MIN <= v <= i32::MAX {
                Some(LiteralView::Integer(v))
            } else {
                None
            },
            None => None,
        },
        CastTarget::Int8 => match int8_value(text) {
            Some(v) => Some(LiteralView::Integer(v)),
            None => None,
        },
        CastTarget::Bool => match bool_value(text) {
            Some(b) => Some(LiteralView::Boolean(b)),
            None => None,
        },
        CastTarget::Text => Some(LiteralView::Text(text)),
        CastTarget::Date => if starts_with_date(text) {
            Some(LiteralView::Text(text.take(10)))
        } else {
            None
        },
    }
}

/// Coerce a row's text to the cast's target.
pub fn cast_target_coerce_text(cast: CastTarget, text: &String) -> (value: Option<LiteralValue>)
    ensures
        match value {
            Some(v) => coerced(cast, text@) == Some(v@),
            None => coerced(cast, text@) is None,
        },
{
    match cast {
        CastTarget::Int4 => match int8_parse(text.as_str()) {
            Some(v) => if -2_147_483_648 <= v && v <= 2_147_483_647 {
                Some(LiteralValue::Integer(v))
            } else {
                None
            },
            None => None,
        },
        CastTarget::Int8 => match int8_parse(text.as_str()) {
            Some(v) => Some(LiteralValue::Integer(v)),
            None => None,
        },
        CastTarget::Bool => match bool_parse(text.as_str()) {
            Some(b) => Some(LiteralValue::Boolean(b)),
            None => None,
        },
        CastTarget::Text => Some(LiteralValue::String(text.clone())),
        CastTarget::Date => {
            let c = chars_of(text.as_str());
            if c.len() >= 10 && is_digit_exec(c[0]) && is_digit_exec(c[1]) && is_digit_exec(c[2])
                && is_digit_exec(c[3]) && c[4] == '-' && is_digit_exec(c[5]) && is_digit_exec(c[6])
                && c[7] == '-' && is_digit_exec(c[8]) && is_digit_exec(c[9]) && (c.len() == 10
                || c[10] == ' ' || c[10] == 'T') {
                let date = text.as_str().substring_char(0, 10).to_owned();
                assert(date@ =~= text@.take(10));
                Some(LiteralValue::String(date))
            } else {
                None
            }
        },
    }
}

/// Whether `a op b`. Values of different types, and NULL, never compare.
pub open spec fn literal_holds(a: LiteralView, op: BinaryOp, b: LiteralView) -> bool {
    match (a, b) {
        (LiteralView::Boolean(x), LiteralView::Boolean(y)) => op_holds(op, !x && y, x == y),
        (LiteralView::Integer(x), LiteralView::Integer(y)) => op_holds(op, x < y, x == y),
        (LiteralView::Text(x), LiteralView::Text(y)) => op_holds(op, text_less(x, y), x == y),
        _ => false,
    }
}

/// Whether `a op b`.
pub fn literal_compare(a: &LiteralValue, op: BinaryOp, b: &LiteralValue) -> (holds: bool)
    ensures
        holds == literal_holds(a@, op, b@),
{
    match (a, b) {
        (LiteralValue::Boolean(x), LiteralValue::Boolean(y)) => op_decide(
            op,
            !*x && *y,
            *x == *y,
        ),
        (LiteralValue::Integer(x), LiteralValue::Integer(y)) => op_decide(op, *x < *y, *x == *y),
        (LiteralValue::String(x), LiteralValue::String(y)) => op_decide(
            op,
            text_less_exec(x.as_str(), y.as_str()),
            *x == *y,
        ),
        _ => false,
    }
}

/// A row's text read as the type of `literal`.
pub open spec fn text_as_literal(literal: LiteralView, text: Seq<char>) -> LiteralView {
    match literal {
        LiteralView::Null => LiteralView::Null,
        LiteralView::Boolean(_) => match bool_value(text) {
            Some(b) => LiteralView::Boolean(b),
            None => LiteralView::Null,
        },
        LiteralView::Integer(_) => match int8_value(text) {
            Some(v) => LiteralView::Integer(v),
            None => LiteralView::Null,
        },
        LiteralView::Text(_) => LiteralView::Text(text),
    }
}

/// Whether the row's text, read as the literal's type, compares as `op` asks.
pub open spec fn text_holds(literal: LiteralView, text: Seq<char>, op: BinaryOp) -> bool {
    literal_holds(text_as_literal(literal, text), op, literal)
}

/// Whether `<row text> op <literal>`; a text that does not spell a value of
/// the literal's type never compares.
pub fn where_value_compare_string(literal: &LiteralValue, text: &String, op: BinaryOp) -> (holds:
    bool)
    ensures
        holds == text_holds(literal@, text@, op),
{
    match literal {
        LiteralValue::Null => false,
        LiteralValue::Boolean(b) => match bool_parse(text.as_str()) {
            Some(a) => op_decide(op, !a && *b, a == *b),
            None => false,
        },
        LiteralValue::Integer(n) => match int8_parse(text.as_str()) {
            Some(a) => op_decide(op, a < *n, a == *n),
            None => false,
        },
        LiteralValue::String(s) => op_decide(
            op,
            text_less_exec(text.as_str(), s.as_str()),
            *text == *s,
        ),
    }
}

} // verus!
