//! The text of a durable record: `<id> - <value>`, two decimal numbers
//! parted by a space, a hyphen and a space.
use vstd::prelude::*;

verus! {

/// Whether the separator (space, hyphen, space) starts at index `i` of `s`.
pub open spec fn sep_at(s: Seq<u8>, i: int) -> bool {
    &&& 0 <= i
    &&& i + 3 <= s.len()
    &&& s[i] == 32u8
    &&& s[i + 1] == 45u8
    &&& s[i + 2] == 32u8
}

/// The index of the first separator that starts at or after `from`, or the
/// length of `s` where there is none.
pub open spec fn next_sep(s: Seq<u8>, from: int) -> int
    decreases s.len() - from,
{
    if from + 3 > s.len() {
        s.len() as int
    } else if sep_at(s, from) {
        from
    } else {
        next_sep(s, from + 1)
    }
}

/// Whether `s` holds a separator at all, so that it has a second field.
pub open spec fn has_second_field(s: Seq<u8>) -> bool {
    next_sep(s, 0) < s.len()
}

/// The bytes before the first separator.
pub open spec fn first_field(s: Seq<u8>) -> Seq<u8> {
    s.subrange(0, next_sep(s, 0))
}

/// The bytes after the first separator, up to the end.
pub open spec fn second_field(s: Seq<u8>) -> Seq<u8> {
    s.subrange(next_sep(s, 0) + 3, s.len() as int)
}

pub open spec fn is_digit(b: u8) -> bool {
    48 <= b <= 57
}

pub open spec fn all_digits(s: Seq<u8>) -> bool {
    forall|i: int| 0 <= i < s.len() ==> is_digit(#[trigger] s[i])
}

/// The number that a sequence of decimal digits spells.
pub open spec fn digits_value(s: Seq<u8>) -> nat
    decreases s.len(),
{
    if s.len() == 0 {
        0
    } else {
        digits_value(s.drop_last()) * 10 + (s.last() - 48) as nat
    }
}

/// The `u64` that `s` spells: at least one digit, nothing else, and no more
/// than `u64::MAX`.
pub open spec fn number_of(s: Seq<u8>) -> Option<u64> {
    if s.len() > 0 && all_digits(s) && digits_value(s) <= u64::MAX {
        Some(digits_value(s) as u64)
    } else {
        None
    }
}

/// Why the text of a record could not be read.
#[derive(Clone, Copy, Debug, PartialEq, Eq, Structural)]
pub enum RecordError {
    /// No separator: the text has no value field.
    MissingValue,
    /// The value field is not a decimal `u64`.
    BadValue,
    /// The id field is not a decimal `u64`.
    BadId,
}

/// What reading a record's text gives: the id and the value, or the first
/// fault found (a missing value field, then a bad value, then a bad id).
pub open spec fn record_of(s: Seq<u8>) -> Result<(u64, u64), RecordError> {
    if !has_second_field(s) {
        Err(RecordError::MissingValue)
    } else {
        match number_of(second_field(s)) {
            None => Err(RecordError::BadValue),
            Some(v) => match number_of(first_field(s)) {
                None => Err(RecordError::BadId),
                Some(id) => Ok((id, v)),
            },
        }
    }
}

/// The decimal digits of `n`, most significant first, without leading zeros.
pub open spec fn decimal(n: nat) -> Seq<u8>
    decreases n,
{
    if n < 10 {
        seq![(48 + n) as u8]
    } else {
        decimal(n / 10).push((48 + n % 10) as u8)
    }
}

/// The text of the record that pairs `id` with `value`.
pub open spec fn record_text_of(id: u64, value: u64) -> Seq<u8> {
    decimal(id as nat) + seq![32u8, 45u8, 32u8] + decimal(value as nat)
}

proof fn lemma_next_sep_bounds(s: Seq<u8>, from: int)
    requires
        0 <= from <= s.len(),
    ensures
        from <= next_sep(s, from) <= s.len(),
        next_sep(s, from) < s.len() ==> sep_at(s, next_sep(s, from)),
        forall|i: int| from <= i < next_sep(s, from) ==> !sep_at(s, i),
    decreases s.len() - from,
{
    if from + 3 <= s.len() && !sep_at(s, from) {
        lemma_next_sep_bounds(s, from + 1);
    }
}

proof fn lemma_next_sep_at(s: Seq<u8>, from: int, j: int)
    requires
        0 <= from <= j <= s.len(),
        forall|i: int| from <= i < j ==> !sep_at(s, i),
        j + 3 > s.len() || sep_at(s, j),
    ensures
        next_sep(s, from) == (if sep_at(s, j) { j } else { s.len() as int }),
    decreases j - from,
{
    if from < j {
        if from + 3 <= s.len() {
            lemma_next_sep_at(s, from + 1, j);
        }
    }
}

proof fn lemma_digits_prefix(s: Seq<u8>, k: int)
    requires
        0 <= k <= s.len(),
        all_digits(s),
    ensures
        digits_value(s.subrange(0, k)) <= digits_value(s),
    decreases s.len(),
{
    if k < s.len() {
        let t = s.drop_last();
        assert(all_digits(t)) by {
            assert forall|i: int| 0 <= i < t.len() implies is_digit(#[trigger] t[i]) by {
                assert(t[i] == s[i]);
            }
        }
        lemma_digits_prefix(t, k);
        assert(t.subrange(0, k) =~= s.subrange(0, k));
    } else {
        assert(s.subrange(0, k) =~= s);
    }
}

proof fn lemma_decimal(n: nat)
    ensures
        decimal(n).len() > 0,
        all_digits(decimal(n)),
        digits_value(decimal(n)) == n,
    decreases n,
{
    if n >= 10 {
        lemma_decimal(n / 10);
        let d = decimal(n);
        assert(d.drop_last() =~= decimal(n / 10));
        assert(all_digits(d)) by {
            assert forall|i: int| 0 <= i < d.len() implies is_digit(#[trigger] d[i]) by {
                if i < d.len() - 1 {
                    assert(d[i] == decimal(n / 10)[i]);
                }
            }
        }
        assert(d.last() == (48 + n % 10) as u8);
        assert((d.last() - 48) as nat == n % 10);
        assert(n == (n / 10) * 10 + n % 10) by (nonlinear_arith);
    } else {
        let d = decimal(n);
        assert(d.drop_last() =~= Seq::<u8>::empty());
        assert(d.last() == (48 + n) as u8);
        assert(digits_value(d.drop_last()) == 0);
    }
}

/// A record's text reads back as the id and the value it was made of.
pub proof fn lemma_record_round_trip(id: u64, value: u64)
    ensures
        record_of(record_text_of(id, value)) == Ok::<(u64, u64), RecordError>((id, value)),
{
    lemma_decimal(id as nat);
    lemma_decimal(value as nat);
    let a = decimal(id as nat);
    let b = decimal(value as nat);
    let s = record_text_of(id, value);
    let p = a.len() as int;
    assert(s[p] == 32u8 && s[p + 1] == 45u8 && s[p + 2] == 32u8);
    assert forall|i: int| 0 <= i < p implies !sep_at(s, i) by {
        assert(s[i] == a[i]);
        assert(is_digit(a[i]));
    }
    lemma_next_sep_at(s, 0, p);
    assert(first_field(s) =~= a);
    assert(second_field(s) =~= b);
}

/// The index of the first separator in `s` at or after `from`, or `s.len()`.
pub fn find_sep(s: &[u8], from: usize) -> (r: usize)
    requires
        from <= s@.len(),
    ensures
        r as int == next_sep(s@, from as int),
{
    let n = s.len();
    let mut i: usize = from;
    while i < n && n - i >= 3
        invariant
            from <= i <= n,
            n == s@.len(),
            next_sep(s@, i as int) == next_sep(s@, from as int),
        decreases n - i,
    {
        if s[i] == 32u8 && s[i + 1] == 45u8 && s[i + 2] == 32u8 {
            return i;
        }
        i = i + 1;
    }
    n
}

/// The `u64` that the bytes `s[start..end]` spell in decimal, if they do.
pub fn parse_number(s: &[u8], start: usize, end: usize) -> (r: Option<u64>)
    requires
        start <= end <= s@.len(),
    ensures
        r == number_of(s@.subrange(start as int, end as int)),
{
    let ghost t = s@.subrange(start as int, end as int);
    if start == end {
        return None;
    }
    let mut v: u64 = 0;
    let mut i: usize = start;
    while i < end
        invariant
            start <= i <= end,
            end <= s@.len(),
            t == s@.subrange(start as int, end as int),
            all_digits(s@.subrange(start as int, i as int)),
            v as nat == digits_value(s@.subrange(start as int, i as int)),
        decreases end - i,
    {
        let ghost before = s@.subrange(start as int, i as int);
        let ghost after = s@.subrange(start as int, i + 1);
        assert(after.drop_last() =~= before);
        let b = s[i];
        if b < 48u8 || b > 57u8 {
            assert(!is_digit(t[i - start]));
            return None;
        }
        assert(all_digits(after)) by {
            assert forall|j: int| 0 <= j < after.len() implies is_digit(#[trigger] after[j]) by {
                if j < before.len() {
                    assert(after[j] == before[j]);
                }
            }
        }
        let d = (b - 48u8) as u64;
        match v.checked_mul(10) {
            None => {
                proof {
                    lemma_more_digits(s@, start as int, i + 1, end as int);
                }
                return None;
            },
            Some(m) => match m.checked_add(d) {
                None => {
                    proof {
                        lemma_more_digits(s@, start as int, i + 1, end as int);
                    }
                    return None;
                },
                Some(w) => {
                    v = w;
                },
            },
        }
        i = i + 1;
    }
    assert(s@.subrange(start as int, i as int) =~= t);
    Some(v)
}

/// Where the digits up to `k` already spell more than `u64::MAX`, so does
/// the whole run up to `end`, or it is no run of digits at all.
proof fn lemma_more_digits(s: Seq<u8>, start: int, k: int, end: int)
    requires
        0 <= start <= k <= end <= s.len(),
        digits_value(s.subrange(start, k)) > u64::MAX,
    ensures
        number_of(s.subrange(start, end)) is None,
{
    let t = s.subrange(start, end);
    if all_digits(t) {
        lemma_digits_prefix(t, k - start);
        assert(t.subrange(0, k - start) =~= s.subrange(start, k));
    }
}

/// Reads the text of a record: its id and its value.
pub fn parse_record(s: &[u8]) -> (r: Result<(u64, u64), RecordError>)
    ensures
        r == record_of(s@),
{
    proof {
        lemma_next_sep_bounds(s@, 0);
    }
    let p = find_sep(s, 0);
    if p == s.len() {
        return Err(RecordError::MissingValue);
    }
    match parse_number(s, p + 3, s.len()) {
        None => Err(RecordError::BadValue),
        Some(v) => match parse_number(s, 0, p) {
            None => Err(RecordError::BadId),
            Some(id) => Ok((id, v)),
        },
    }
}

/// Appends the decimal digits of `n` to `out`.
fn push_decimal(out: &mut Vec<u8>, n: u64)
    ensures
        final(out)@ == old(out)@ + decimal(n as nat),
    decreases n,
{
    if n >= 10 {
        push_decimal(out, n / 10);
    }
    out.push(48u8 + (n % 10) as u8);
    proof {
        if n < 10 {
            assert(decimal(n as nat) =~= seq![(48 + n) as u8]);
        }
    }
    assert(final(out)@ =~= old(out)@ + decimal(n as nat));
}

/// The text of the record that pairs `id` with `value`.
pub fn record_text(id: u64, value: u64) -> (r: Vec<u8>)
    ensures
        r@ == record_text_of(id, value),
{
    let mut out: Vec<u8> = Vec::new();
    push_decimal(&mut out, id);
    out.push(32u8);
    out.push(45u8);
    out.push(32u8);
    push_decimal(&mut out, value);
    assert(out@ =~= record_text_of(id, value));
    out
}

} // verus!
