//! Value coercion: from a textual fragment to a typed value.
//!
//! Coercion never fails: a fragment of no recognised shape is a string.

use vstd::prelude::*;
use vstd::slice::slice_subrange;
use crate::text::{
    append_chars, char_width, contains_char, from_chars, is_digit, is_digit_char,
    lemma_trim_idempotent, lemma_trim_of_trimmed, lemma_trim_shape, lemma_utf8_len_bounds,
    to_chars, trim, trim_slice, utf8_len,
};
use crate::value::{value_views, FieldValue, ValueModel};

verus! {

// ---------------------------------------------------------------------------
// Shapes
// ---------------------------------------------------------------------------

/// The index after the longest run of digits that starts at `i`.
pub open spec fn digits_end(s: Seq<char>, i: int) -> int
    decreases s.len() - i,
{
    if 0 <= i < s.len() && is_digit(s[i]) {
        digits_end(s, i + 1)
    } else {
        i
    }
}

/// The index after the longest run of digits from `i`.
fn scan_digits(s: &[char], i: usize) -> (r: usize)
    requires
        i <= s.len(),
    ensures
        r == digits_end(s@, i as int),
        i <= r <= s.len(),
{
    let mut k: usize = i;
    while k < s.len() && is_digit_char(s[k])
        invariant
            i <= k <= s.len(),
            digits_end(s@, i as int) == digits_end(s@, k as int),
        decreases s.len() - k,
    {
        k += 1;
    }
    k
}

/// Whether `c` is the letter `l` (given in lower case) in either case.
pub open spec fn is_letter(c: char, l: char) -> bool {
    c == l || (c as u32) + 32 == (l as u32)
}

/// Whether `c` is the letter `l` in either case.
fn letter(c: char, l: char) -> (b: bool)
    ensures
        b == is_letter(c, l),
{
    let x: u32 = c as u32;
    let y: u32 = l as u32;
    c == l || (x <= 0x10FFFF && x + 32 == y)
}

/// Whether `s[i..]` is `inf`, `infinity` or `nan`, in any case.
pub open spec fn special_at(s: Seq<char>, i: int) -> bool {
    let n = s.len() - i;
    ||| n == 3 && is_letter(s[i], 'i') && is_letter(s[i + 1], 'n') && is_letter(s[i + 2], 'f')
    ||| n == 3 && is_letter(s[i], 'n') && is_letter(s[i + 1], 'a') && is_letter(s[i + 2], 'n')
    ||| n == 8 && is_letter(s[i], 'i') && is_letter(s[i + 1], 'n') && is_letter(s[i + 2], 'f')
        && is_letter(s[i + 3], 'i') && is_letter(s[i + 4], 'n') && is_letter(s[i + 5], 'i')
        && is_letter(s[i + 6], 't') && is_letter(s[i + 7], 'y')
}

/// Whether `s[i..]` is an exponent: `e` or `E`, an optional sign, and one or
/// more digits.
pub open spec fn exponent_at(s: Seq<char>, i: int) -> bool {
    &&& i < s.len()
    &&& is_letter(s[i], 'e')
    &&& {
        let c = if i + 1 < s.len() && (s[i + 1] == '+' || s[i + 1] == '-') {
            i + 2
        } else {
            i + 1
        };
        c < digits_end(s, c) && digits_end(s, c) == s.len()
    }
}

/// Whether `s[i..]` is a decimal number: digits with at most one point among
/// them, at least one digit in all, and an optional exponent.
pub open spec fn number_at(s: Seq<char>, i: int) -> bool {
    let a = digits_end(s, i);
    let has_point = a < s.len() && s[a] == '.';
    let b = if has_point {
        digits_end(s, a + 1)
    } else {
        a
    };
    let digits = if has_point {
        (a - i) + (b - (a + 1))
    } else {
        a - i
    };
    digits >= 1 && (b == s.len() || exponent_at(s, b))
}

/// The grammar of decimal floating-point literals, as the standard library
/// documents it for parsing a double-precision number from a string: an
/// optional sign, then `inf`, `infinity`, `nan` or a decimal number.
pub open spec fn is_float_literal(s: Seq<char>) -> bool {
    let i = if s.len() > 0 && (s[0] == '+' || s[0] == '-') {
        1int
    } else {
        0int
    };
    special_at(s, i) || number_at(s, i)
}

fn is_special(s: &[char], i: usize) -> (b: bool)
    requires
        i <= s.len(),
    ensures
        b == special_at(s@, i as int),
{
    let n = s.len() - i;
    if n == 3 {
        (letter(s[i], 'i') && letter(s[i + 1], 'n') && letter(s[i + 2], 'f')) || (letter(s[i], 'n')
            && letter(s[i + 1], 'a') && letter(s[i + 2], 'n'))
    } else if n == 8 {
        letter(s[i], 'i') && letter(s[i + 1], 'n') && letter(s[i + 2], 'f') && letter(
            s[i + 3],
            'i',
        ) && letter(s[i + 4], 'n') && letter(s[i + 5], 'i') && letter(s[i + 6], 't') && letter(
            s[i + 7],
            'y',
        )
    } else {
        false
    }
}

fn is_exponent(s: &[char], i: usize) -> (b: bool)
    requires
        i <= s.len(),
    ensures
        b == exponent_at(s@, i as int),
{
    if i >= s.len() || !letter(s[i], 'e') {
        return false;
    }
    let c = if i + 1 < s.len() && (s[i + 1] == '+' || s[i + 1] == '-') {
        i + 2
    } else {
        i + 1
    };
    let d = scan_digits(s, c);
    c < d && d == s.len()
}

fn is_number(s: &[char], i: usize) -> (b: bool)
    requires
        i <= s.len(),
    ensures
        b == number_at(s@, i as int),
{
    let a = scan_digits(s, i);
    let has_point = a < s.len() && s[a] == '.';
    let b = if has_point {
        scan_digits(s, a + 1)
    } else {
        a
    };
    let digits = if has_point {
        (a - i) + (b - (a + 1))
    } else {
        a - i
    };
    digits >= 1 && (b == s.len() || is_exponent(s, b))
}

/// Whether `s` is a decimal floating-point literal.
pub fn is_float(s: &[char]) -> (b: bool)
    ensures
        b == is_float_literal(s@),
{
    let i: usize = if s.len() > 0 && (s[0] == '+' || s[0] == '-') {
        1
    } else {
        0
    };
    is_special(s, i) || is_number(s, i)
}

/// The shape of an ISO date: `YYYY-MM-DD`.
pub open spec fn is_date_shape(s: Seq<char>) -> bool {
    &&& s.len() == 10
    &&& is_digit(s[0]) && is_digit(s[1]) && is_digit(s[2]) && is_digit(s[3])
    &&& s[4] == '-'
    &&& is_digit(s[5]) && is_digit(s[6])
    &&& s[7] == '-'
    &&& is_digit(s[8]) && is_digit(s[9])
}

/// The shape of a datetime: a `T` somewhere, and at least 16 bytes.
pub open spec fn is_datetime_shape(s: Seq<char>) -> bool {
    s.contains('T') && utf8_len(s) >= 16
}

fn date_shape(s: &[char]) -> (b: bool)
    ensures
        b == is_date_shape(s@),
{
    s.len() == 10 && is_digit_char(s[0]) && is_digit_char(s[1]) && is_digit_char(s[2])
        && is_digit_char(s[3]) && s[4] == '-' && is_digit_char(s[5]) && is_digit_char(s[6]) && s[7]
        == '-' && is_digit_char(s[8]) && is_digit_char(s[9])
}

/// Whether `s` takes at least 16 bytes in UTF-8.
fn at_least_16_bytes(s: &[char]) -> (b: bool)
    ensures
        b == (utf8_len(s@) >= 16),
{
    proof {
        lemma_utf8_len_bounds(s@);
    }
    if s.len() >= 16 {
        return true;
    }
    let mut total: usize = 0;
    let mut i: usize = 0;
    while i < s.len()
        invariant
            i <= s.len() < 16,
            total == utf8_len(s@.subrange(0, i as int)),
            total <= 4 * i,
        decreases s.len() - i,
    {
        proof {
            assert(s@.subrange(0, i + 1).drop_last() =~= s@.subrange(0, i as int));
        }
        total = total + char_width(s[i]);
        i += 1;
    }
    proof {
        assert(s@.subrange(0, s.len() as int) =~= s@);
    }
    total >= 16
}

fn datetime_shape(s: &[char]) -> (b: bool)
    ensures
        b == is_datetime_shape(s@),
{
    contains_char(s, 'T') && at_least_16_bytes(s)
}

/// Whether a string has the shape of an ISO date, `YYYY-MM-DD`.
pub fn is_date_string(s: &str) -> (b: bool)
    ensures
        b == is_date_shape(s@),
{
    let v = to_chars(s);
    date_shape(v.as_slice())
}

/// Whether a string has the shape of a datetime: it holds a `T` and takes at
/// least 16 bytes.
pub fn is_datetime_string(s: &str) -> (b: bool)
    ensures
        b == is_datetime_shape(s@),
{
    let v = to_chars(s);
    datetime_shape(v.as_slice())
}

/// The shape of a reference: `[[x]]`, where `x` holds no square bracket.
pub open spec fn is_reference_shape(s: Seq<char>) -> bool {
    &&& s.len() >= 4
    &&& s[0] == '[' && s[1] == '['
    &&& s[s.len() - 1] == ']' && s[s.len() - 2] == ']'
    &&& forall|k: int| 2 <= k < s.len() - 2 ==> s[k] != '[' && s[k] != ']'
}

fn reference_shape(s: &[char]) -> (b: bool)
    ensures
        b == is_reference_shape(s@),
{
    let n = s.len();
    if !(n >= 4 && s[0] == '[' && s[1] == '[' && s[n - 1] == ']' && s[n - 2] == ']') {
        return false;
    }
    let mut k: usize = 2;
    while k < n - 2
        invariant
            2 <= k <= n - 2,
            n == s.len(),
            forall|j: int| 2 <= j < k ==> s@[j] != '[' && s@[j] != ']',
        decreases n - k,
    {
        if s[k] == '[' || s[k] == ']' {
            return false;
        }
        k += 1;
    }
    true
}

/// The shape of an array: it starts with `[` and ends with `]`.
pub open spec fn is_array_shape(s: Seq<char>) -> bool {
    s.len() >= 2 && s[0] == '[' && s.last() == ']'
}

/// The shape of a quoted string: it starts and ends with `"`.
pub open spec fn is_quoted_shape(s: Seq<char>) -> bool {
    s.len() >= 2 && s[0] == '"' && s.last() == '"'
}

/// The text `true`.
pub open spec fn text_true() -> Seq<char> {
    seq!['t', 'r', 'u', 'e']
}

/// The text `false`.
pub open spec fn text_false() -> Seq<char> {
    seq!['f', 'a', 'l', 's', 'e']
}

fn is_true(s: &[char]) -> (b: bool)
    ensures
        b == (s@ == text_true()),
{
    let b = s.len() == 4 && s[0] == 't' && s[1] == 'r' && s[2] == 'u' && s[3] == 'e';
    proof {
        if b {
            assert(s@ =~= text_true());
        }
    }
    b
}

fn is_false(s: &[char]) -> (b: bool)
    ensures
        b == (s@ == text_false()),
{
    let b = s.len() == 5 && s[0] == 'f' && s[1] == 'a' && s[2] == 'l' && s[3] == 's' && s[4]
        == 'e';
    proof {
        if b {
            assert(s@ =~= text_false());
        }
    }
    b
}

// ---------------------------------------------------------------------------
// Splitting the inside of an array
// ---------------------------------------------------------------------------

/// The state of the scan that splits the inside of an array at its top-level
/// commas.
pub struct SplitState {
    /// The segments that a comma has closed.
    pub items: Seq<Seq<char>>,
    /// Where the open segment starts.
    pub start: int,
    /// Opened minus closed square brackets, outside quotes.
    pub depth: int,
    /// Whether the scan is inside a quoted string.
    pub quoted: bool,
}

/// The state after one more character `s[n]`.
pub open spec fn split_step(s: Seq<char>, st: SplitState, n: int) -> SplitState {
    let c = s[n];
    if c == '"' {
        SplitState { quoted: !st.quoted, ..st }
    } else if c == '[' && !st.quoted {
        SplitState { depth: st.depth + 1, ..st }
    } else if c == ']' && !st.quoted {
        SplitState { depth: st.depth - 1, ..st }
    } else if c == ',' && !st.quoted && st.depth == 0 {
        SplitState { items: st.items.push(s.subrange(st.start, n)), start: n + 1, ..st }
    } else {
        st
    }
}

/// The state after the first `n` characters of `s`.
pub open spec fn split_state(s: Seq<char>, n: int) -> SplitState
    decreases n,
{
    if n <= 0 {
        SplitState { items: Seq::empty(), start: 0, depth: 0, quoted: false }
    } else {
        split_step(s, split_state(s, n - 1), n - 1)
    }
}

/// The segments of `s` between its top-level commas: commas outside quoted
/// strings and outside square brackets.
pub open spec fn split_items(s: Seq<char>) -> Seq<Seq<char>> {
    let st = split_state(s, s.len() as int);
    st.items.push(s.subrange(st.start, s.len() as int))
}

/// The open segment starts within the scanned part, and no closed segment
/// is longer than it.
pub proof fn lemma_split_state(s: Seq<char>, n: int)
    requires
        0 <= n <= s.len(),
    ensures
        0 <= split_state(s, n).start <= n,
        -n <= split_state(s, n).depth <= n,
        split_state(s, n).items.len() <= n,
        forall|k: int|
            0 <= k < split_state(s, n).items.len() ==> (#[trigger] split_state(s, n).items[k]).len()
                <= n,
    decreases n,
{
    if n > 0 {
        lemma_split_state(s, n - 1);
    }
}

/// No segment is longer than the text it was split from.
pub proof fn lemma_split_items(s: Seq<char>)
    ensures
        1 <= split_items(s).len() <= s.len() + 1,
        forall|k: int| 0 <= k < split_items(s).len() ==> (#[trigger] split_items(s)[k]).len() <= s.len(),
{
    lemma_split_state(s, s.len() as int);
}

// ---------------------------------------------------------------------------
// Coercion
// ---------------------------------------------------------------------------

/// The value that a textual fragment denotes. The first shape that the
/// trimmed fragment has decides:
///
/// 1. empty: null;
/// 2. `[[x]]` without a square bracket in `x`: a reference to `x`;
/// 3. `[` ... `]`: an array of the values of its non-empty segments;
/// 4. `"` ... `"`: the string between the quotes;
/// 5. `true` or `false`: a boolean;
/// 6. a floating-point literal: a number;
/// 7. `YYYY-MM-DD`: a date; a `T` and 16 bytes or more: a datetime;
/// 8. anything else: the fragment as a string.
pub open spec fn coerce(s: Seq<char>) -> ValueModel
    decreases s.len(), 0int,
{
    let t = trim(s);
    if t.len() == 0 {
        ValueModel::Null
    } else if is_reference_shape(t) {
        ValueModel::Ref(t.subrange(2, t.len() - 2))
    } else if is_array_shape(t) {
        proof {
            lemma_trim_shape(s);
        }
        let inner = t.subrange(1, t.len() - 1);
        ValueModel::Array(coerce_items(inner, split_items(inner).len() as int))
    } else if is_quoted_shape(t) {
        ValueModel::String(t.subrange(1, t.len() - 1))
    } else if t == text_true() {
        ValueModel::Bool(true)
    } else if t == text_false() {
        ValueModel::Bool(false)
    } else if is_float_literal(t) {
        ValueModel::Number(t)
    } else if is_date_shape(t) {
        ValueModel::Date(t)
    } else if is_datetime_shape(t) {
        ValueModel::Datetime(t)
    } else {
        ValueModel::String(t)
    }
}

/// The values of the first `k` segments of the inside `s` of an array. A
/// segment that is empty after trimming gives no value.
pub open spec fn coerce_items(s: Seq<char>, k: int) -> Seq<ValueModel>
    decreases s.len() + 1, k,
{
    if k <= 0 || k > split_items(s).len() {
        Seq::empty()
    } else {
        proof {
            lemma_split_items(s);
        }
        let seg = split_items(s)[k - 1];
        if trim(seg).len() == 0 {
            coerce_items(s, k - 1)
        } else {
            coerce_items(s, k - 1).push(coerce(seg))
        }
    }
}

/// The values of the first `k` segments depend on those segments only.
proof fn lemma_coerce_items_prefix(s: Seq<char>, k: int, items: Seq<Seq<char>>)
    requires
        0 <= k <= items.len(),
        k <= split_items(s).len(),
        forall|j: int| 0 <= j < k ==> items[j] == split_items(s)[j],
    ensures
        coerce_items(s, k) == values_of(items, k),
    decreases k,
{
    if k > 0 {
        lemma_coerce_items_prefix(s, k - 1, items);
    }
}

/// The values of the first `k` of the given segments.
pub open spec fn values_of(items: Seq<Seq<char>>, k: int) -> Seq<ValueModel>
    decreases k,
{
    if k <= 0 || k > items.len() {
        Seq::empty()
    } else if trim(items[k - 1]).len() == 0 {
        values_of(items, k - 1)
    } else {
        values_of(items, k - 1).push(coerce(items[k - 1]))
    }
}

/// Coerces the segments of the inside of an array.
fn coerce_segments(inner: &[char]) -> (r: Vec<FieldValue>)
    ensures
        value_views(r@) == coerce_items(inner@, split_items(inner@).len() as int),
    decreases inner@.len() + 1, 0int,
{
    let n = inner.len();
    let mut items: Vec<FieldValue> = Vec::new();
    let mut start: usize = 0;
    let mut depth: i128 = 0;
    let mut quoted = false;
    let mut i: usize = 0;
    let ghost mut closed: Seq<Seq<char>> = Seq::empty();
    assert(value_views(items@) =~= values_of(closed, 0));
    while i < n
        invariant
            i <= n,
            n == inner@.len(),
            split_state(inner@, i as int) == (SplitState {
                items: closed,
                start: start as int,
                depth: depth as int,
                quoted,
            }),
            start <= i,
            -(i as int) <= depth <= i as int,
            value_views(items@) == values_of(closed, closed.len() as int),
        decreases n - i,
    {
        let c = inner[i];
        proof {
            lemma_split_state(inner@, i as int);
        }
        if c == '"' {
            quoted = !quoted;
        } else if c == '[' && !quoted {
            depth = depth + 1;
        } else if c == ']' && !quoted {
            depth = depth - 1;
        } else if c == ',' && !quoted && depth == 0 {
            let seg = slice_subrange(inner, start, i);
            let ghost before = closed;
            let ghost old_items = items@;
            if trim_slice(seg).len() > 0 {
                let v = coerce_chars(seg);
                items.push(v);
                proof {
                    assert(value_views(items@) =~= value_views(old_items).push(v@));
                }
            }
            proof {
                closed = before.push(seg@);
                lemma_values_of_push(before, seg@);
            }
            start = i + 1;
        }
        i += 1;
    }
    let seg = slice_subrange(inner, start, n);
    let ghost all = closed.push(seg@);
    let ghost old_items = items@;
    if trim_slice(seg).len() > 0 {
        let v = coerce_chars(seg);
        items.push(v);
        proof {
            assert(value_views(items@) =~= value_views(old_items).push(v@));
        }
    }
    proof {
        lemma_values_of_push(closed, seg@);
        assert(all == split_items(inner@));
        lemma_coerce_items_prefix(inner@, all.len() as int, all);
    }
    items
}

/// The values of segments, extended by one segment.
proof fn lemma_values_of_push(items: Seq<Seq<char>>, seg: Seq<char>)
    ensures
        values_of(items.push(seg), items.len() as int + 1) == if trim(seg).len() == 0 {
            values_of(items, items.len() as int)
        } else {
            values_of(items, items.len() as int).push(coerce(seg))
        },
{
    lemma_values_of_prefix(items, items.push(seg), items.len() as int);
}

proof fn lemma_values_of_prefix(a: Seq<Seq<char>>, b: Seq<Seq<char>>, k: int)
    requires
        0 <= k <= a.len() <= b.len(),
        forall|j: int| 0 <= j < k ==> a[j] == b[j],
    ensures
        values_of(a, k) == values_of(b, k),
    decreases k,
{
    if k > 0 {
        lemma_values_of_prefix(a, b, k - 1);
    }
}

/// Coerces a fragment, given as characters.
pub fn coerce_chars(s: &[char]) -> (r: FieldValue)
    ensures
        r@ == coerce(s@),
    decreases s@.len(), 1int,
{
    let t = trim_slice(s);
    let n = t.len();
    proof {
        lemma_trim_shape(s@);
    }
    if n == 0 {
        FieldValue::Null
    } else if reference_shape(t) {
        FieldValue::Ref(from_chars(slice_subrange(t, 2, n - 2)))
    } else if n >= 2 && t[0] == '[' && t[n - 1] == ']' {
        let items = coerce_segments(slice_subrange(t, 1, n - 1));
        FieldValue::Array(items)
    } else if n >= 2 && t[0] == '"' && t[n - 1] == '"' {
        FieldValue::String(from_chars(slice_subrange(t, 1, n - 1)))
    } else if is_true(t) {
        FieldValue::Bool(true)
    } else if is_false(t) {
        FieldValue::Bool(false)
    } else if is_float(t) {
        FieldValue::Number(from_chars(t))
    } else if date_shape(t) {
        FieldValue::Date(from_chars(t))
    } else if datetime_shape(t) {
        FieldValue::Datetime(from_chars(t))
    } else {
        FieldValue::String(from_chars(t))
    }
}

/// Coerces a textual fragment into a typed value.
pub fn parse_value(s: &str) -> (r: FieldValue)
    ensures
        r@ == coerce(s@),
{
    let v = to_chars(s);
    coerce_chars(v.as_slice())
}

/// Coerces the inside of an array into its items.
pub fn parse_array_items(s: &str) -> (r: Vec<FieldValue>)
    ensures
        value_views(r@) == coerce_items(s@, split_items(s@).len() as int),
{
    let v = to_chars(s);
    coerce_segments(v.as_slice())
}

// ---------------------------------------------------------------------------
// Writing a value back as text
// ---------------------------------------------------------------------------

/// The text that a value is written as: the text that coerces back to it.
/// A string is written between quotes, a reference between double square
/// brackets, an array between square brackets with `, ` between its items.
pub open spec fn canonical_text(v: ValueModel) -> Seq<char>
    decreases v, 0int,
{
    match v {
        ValueModel::Null => Seq::empty(),
        ValueModel::Bool(b) => if b {
            text_true()
        } else {
            text_false()
        },
        ValueModel::Number(t) => t,
        ValueModel::Date(t) => t,
        ValueModel::Datetime(t) => t,
        ValueModel::String(x) => seq!['"'] + x + seq!['"'],
        ValueModel::Ref(x) => seq!['[', '['] + x + seq![']', ']'],
        ValueModel::Array(items) => seq!['['] + joined_texts(items, items.len() as int) + seq![']'],
    }
}

/// The texts of the first `k` items, with `, ` between them.
pub open spec fn joined_texts(items: Seq<ValueModel>, k: int) -> Seq<char>
    decreases items, k,
{
    if k <= 0 || k > items.len() {
        Seq::empty()
    } else if k == 1 {
        canonical_text(items[0])
    } else {
        joined_texts(items, k - 1) + seq![',', ' '] + canonical_text(items[k - 1])
    }
}

/// Coercing the text of a value that coercion gave, other than an array or
/// a reference, gives the value again.
pub proof fn lemma_coerce_round_trip(s: Seq<char>)
    requires
        !(coerce(s) is Array),
        !(coerce(s) is Ref),
    ensures
        coerce(canonical_text(coerce(s))) == coerce(s),
{
    let t = trim(s);
    let v = coerce(s);
    lemma_trim_shape(s);
    lemma_trim_idempotent(s);
    match v {
        ValueModel::String(x) => {
            let q = seq!['"'] + x + seq!['"'];
            assert(q[0] == '"' && q.last() == '"');
            lemma_trim_of_trimmed(q);
            assert(q.subrange(1, q.len() - 1) =~= x);
        },
        ValueModel::Null => {
            assert(trim(Seq::<char>::empty()) =~= Seq::<char>::empty());
        },
        ValueModel::Bool(b) => {
            assert(canonical_text(v) == t);
        },
        _ => {
            assert(canonical_text(v) == t);
        },
    }
}

/// Writes a value as text.
pub fn to_text_chars(v: &FieldValue) -> (r: Vec<char>)
    ensures
        r@ == canonical_text(v@),
    decreases v,
{
    match v {
        FieldValue::Null => Vec::new(),
        FieldValue::Bool(b) => {
            let mut r: Vec<char> = Vec::new();
            if *b {
                r.push('t');
                r.push('r');
                r.push('u');
                r.push('e');
                assert(r@ =~= text_true());
            } else {
                r.push('f');
                r.push('a');
                r.push('l');
                r.push('s');
                r.push('e');
                assert(r@ =~= text_false());
            }
            r
        },
        FieldValue::Number(t) => to_chars(t.as_str()),
        FieldValue::Date(t) => to_chars(t.as_str()),
        FieldValue::Datetime(t) => to_chars(t.as_str()),
        FieldValue::String(x) => {
            let mut r: Vec<char> = Vec::new();
            r.push('"');
            let inner = to_chars(x.as_str());
            append_chars(&mut r, inner.as_slice());
            r.push('"');
            assert(r@ =~= seq!['"'] + x@ + seq!['"']);
            r
        },
        FieldValue::Ref(x) => {
            let mut r: Vec<char> = Vec::new();
            r.push('[');
            r.push('[');
            let inner = to_chars(x.as_str());
            append_chars(&mut r, inner.as_slice());
            r.push(']');
            r.push(']');
            assert(r@ =~= seq!['[', '['] + x@ + seq![']', ']']);
            r
        },
        FieldValue::Array(items) => {
            let mut r: Vec<char> = Vec::new();
            r.push('[');
            let ghost models = value_views(items@);
            let mut i: usize = 0;
            while i < items.len()
                invariant
                    i <= items.len(),
                    models == value_views(items@),
                    r@ == seq!['['] + joined_texts(models, i as int),
                    v is Array,
                    v->Array_0 == *items,
                decreases items.len() - i,
            {
                if i > 0 {
                    r.push(',');
                    r.push(' ');
                }
                proof {
                    broadcast use vstd::std_specs::vec::axiom_vec_index_decreases;
                    assert(decreases_to!(*items => items[i as int]));
                    assert(decreases_to!(*v => v->Array_0));
                }
                let item = to_text_chars(&items[i]);
                append_chars(&mut r, item.as_slice());
                proof {
                    assert(models[i as int] == items@[i as int]@);
                    if i == 0 {
                        assert(r@ =~= seq!['['] + joined_texts(models, 1));
                    } else {
                        assert(r@ =~= seq!['['] + joined_texts(models, i + 1));
                    }
                }
                i += 1;
            }
            r.push(']');
            r
        },
    }
}

/// Writes a value as text. See [`canonical_text`].
pub fn to_text(v: &FieldValue) -> (r: String)
    ensures
        r@ == canonical_text(v@),
{
    let chars = to_text_chars(v);
    from_chars(chars.as_slice())
}

} // verus!
