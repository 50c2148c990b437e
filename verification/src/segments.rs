//! The plot files that a directory holds already, read from their names:
//! which nonces each one covers, and where the next file starts.
//!
//! A plot file is named `account_start_count`, the three numbers in decimal.
use crate::hasher::{decimal, plot_name};
use vstd::prelude::*;

verus! {

/// The byte `_`, which parts the fields of a file name.
pub const UNDERSCORE: u8 = 0x5F;

/// The byte `+`, which may stand before the digits of a number.
pub const PLUS: u8 = 0x2B;

/// Whether `b` is one of the digits `0` to `9`.
pub open spec fn is_digit(b: u8) -> bool {
    0x30 <= b <= 0x39
}

/// Whether `s` holds digits alone.
pub open spec fn all_digits(s: Seq<u8>) -> bool {
    forall|i: int| 0 <= i < s.len() ==> is_digit(#[trigger] s[i])
}

/// The number that the digit `b` stands for.
pub open spec fn digit_value(b: u8) -> nat {
    if is_digit(b) {
        (b - 0x30) as nat
    } else {
        0
    }
}

/// The number that the digits `s` write in decimal.
pub open spec fn digits_value(s: Seq<u8>) -> nat
    decreases s.len(),
{
    if s.len() == 0 {
        0
    } else {
        digits_value(s.drop_last()) * 10 + digit_value(s.last())
    }
}

/// The digits of a field: the field without a plus sign at its start.
pub open spec fn unsigned(s: Seq<u8>) -> Seq<u8> {
    if s.len() > 0 && s[0] == PLUS {
        s.subrange(1, s.len() as int)
    } else {
        s
    }
}

/// The number that a field of a file name writes: decimal digits, at least
/// one, with or without a plus sign before them.  A field that is empty,
/// holds anything else, or writes more than a `u64` holds is no number.
pub open spec fn field_value(s: Seq<u8>) -> Option<u64> {
    let digits = unsigned(s);
    if digits.len() > 0 && all_digits(digits) && digits_value(digits) <= u64::MAX {
        Some(digits_value(digits) as u64)
    } else {
        None
    }
}

/// Whether `s` is the decimal numeral of `id`: digits alone, no sign, and no
/// zero before other digits.
pub open spec fn is_numeral_of(s: Seq<u8>, id: u64) -> bool {
    &&& s.len() > 0
    &&& all_digits(s)
    &&& digits_value(s) == id
    &&& s.len() == 1 || s[0] != 0x30
}

/// Index of the first underscore of `name` at or behind `from`, or the
/// length of `name` where there is none.
pub open spec fn field_end(name: Seq<u8>, from: int) -> int
    decreases name.len() - from,
{
    if from >= name.len() {
        name.len() as int
    } else if name[from] == UNDERSCORE {
        from
    } else {
        field_end(name, from + 1)
    }
}

/// The segment that the file name `name` claims for account `id`: its first
/// nonce and its number of nonces.  The name has at least three fields
/// parted by underscores; the first is the numeral of `id`, the second and
/// the third are numbers.
pub open spec fn segment_of(name: Seq<u8>, id: u64) -> Option<(u64, u64)> {
    let a = field_end(name, 0);
    let b = field_end(name, a + 1);
    let c = field_end(name, b + 1);
    if a < name.len() && b < name.len() && is_numeral_of(name.subrange(0, a), id) {
        match (field_value(name.subrange(a + 1, b)), field_value(name.subrange(b + 1, c))) {
            (Some(start), Some(count)) => Some((start, count)),
            _ => None,
        }
    } else {
        None
    }
}

/// The nonce behind the last one of the segment that `name` claims for
/// account `id`; 0 where it claims none, or one that passes the largest
/// nonce index.
pub open spec fn end_of(name: Seq<u8>, id: u64) -> nat {
    match segment_of(name, id) {
        Some((start, count)) => if start + count <= u64::MAX {
            (start + count) as nat
        } else {
            0
        },
        None => 0,
    }
}

/// The nonce behind all the segments that `names` claim for account `id`:
/// the greatest of their ends, and 0 where there is none.
pub open spec fn next_start(names: Seq<Seq<u8>>, id: u64) -> nat
    decreases names.len(),
{
    if names.len() == 0 {
        0
    } else {
        let before = next_start(names.drop_last(), id);
        let end = end_of(names.last(), id);
        if end > before {
            end
        } else {
            before
        }
    }
}

/// The names as sequences of bytes.
pub open spec fn names_of(names: Seq<Vec<u8>>) -> Seq<Seq<u8>> {
    Seq::new(names.len(), |i: int| names[i]@)
}

/// The digits before the last one write a number that is no greater.
pub proof fn lemma_digits_grow(s: Seq<u8>, k: int)
    requires
        0 <= k <= s.len(),
    ensures
        digits_value(s.subrange(0, k)) <= digits_value(s),
    decreases s.len() - k,
{
    if k < s.len() {
        lemma_digits_grow(s, k + 1);
        let longer = s.subrange(0, k + 1);
        assert(longer.drop_last() =~= s.subrange(0, k));
    } else {
        assert(s.subrange(0, k) =~= s);
    }
}

/// The next file starts behind every segment, and at the end of one of them
/// or at 0.
pub proof fn lemma_next_start_is_greatest(names: Seq<Seq<u8>>, id: u64)
    ensures
        forall|i: int| 0 <= i < names.len() ==> end_of(#[trigger] names[i], id) <= next_start(names, id),
        next_start(names, id) == 0 || exists|i: int|
            0 <= i < names.len() && end_of(#[trigger] names[i], id) == next_start(names, id),
        next_start(names, id) <= u64::MAX,
    decreases names.len(),
{
    if names.len() > 0 {
        let before = names.drop_last();
        lemma_next_start_is_greatest(before, id);
        assert forall|i: int| 0 <= i < names.len() implies end_of(#[trigger] names[i], id)
            <= next_start(names, id) by {
            if i < names.len() - 1 {
                assert(names[i] == before[i]);
            }
        }
        if next_start(names, id) != 0 {
            if end_of(names.last(), id) > next_start(before, id) {
                assert(end_of(names[names.len() - 1], id) == next_start(names, id));
            } else {
                let i = choose|i: int|
                    0 <= i < before.len() && end_of(#[trigger] before[i], id) == next_start(
                        before,
                        id,
                    );
                assert(names[i] == before[i]);
            }
        }
    }
}

/// The bytes of a name that is written in ASCII.
pub open spec fn name_bytes(name: Seq<char>) -> Seq<u8> {
    Seq::new(name.len(), |i: int| name[i] as u8)
}

/// The decimal numeral of a number is digits alone, without a zero before
/// other digits, and writes the number.
pub proof fn lemma_numeral(n: nat)
    ensures
        name_bytes(decimal(n)).len() > 0,
        all_digits(name_bytes(decimal(n))),
        digits_value(name_bytes(decimal(n))) == n,
        name_bytes(decimal(n)).len() == 1 || name_bytes(decimal(n))[0] != 0x30,
        n > 0 ==> name_bytes(decimal(n))[0] != 0x30,
    decreases n,
{
    let d = name_bytes(decimal(n));
    if n < 10 {
        assert(d.len() == 1);
        assert(d[0] == 0x30 + n);
        assert(d.drop_last() =~= Seq::<u8>::empty());
        assert(digits_value(d.drop_last()) == 0);
    } else {
        lemma_numeral(n / 10);
        let shorter = name_bytes(decimal(n / 10));
        assert(d.len() == shorter.len() + 1);
        assert(d.drop_last() =~= shorter);
        assert(d.last() == 0x30 + n % 10);
        assert(d[0] == shorter[0]);
        assert forall|i: int| 0 <= i < d.len() implies is_digit(#[trigger] d[i]) by {
            if i < shorter.len() {
                assert(d[i] == shorter[i]);
            }
        }
    }
}

/// A field ends at the first underscore behind its start.
pub proof fn lemma_field_end(name: Seq<u8>, from: int, end: int)
    requires
        0 <= from <= end <= name.len(),
        forall|i: int| from <= i < end ==> name[i] != UNDERSCORE,
        end < name.len() ==> name[end] == UNDERSCORE,
    ensures
        field_end(name, from) == end,
    decreases end - from,
{
    if from < end {
        lemma_field_end(name, from + 1, end);
    }
}

/// The name that a plot file is given is read back as the segment it was
/// given for.
pub proof fn lemma_name_is_read(id: u64, start: u64, count: u64)
    ensures
        segment_of(name_bytes(plot_name(id, start, count)), id) == Some((start, count)),
{
    let name = name_bytes(plot_name(id, start, count));
    let d1 = name_bytes(decimal(id as nat));
    let d2 = name_bytes(decimal(start as nat));
    let d3 = name_bytes(decimal(count as nat));
    lemma_numeral(id as nat);
    lemma_numeral(start as nat);
    lemma_numeral(count as nat);
    let a = d1.len() as int;
    let b = a + 1 + d2.len();
    let c = b + 1 + d3.len();
    assert(name =~= d1 + seq![UNDERSCORE] + d2 + seq![UNDERSCORE] + d3);
    assert(name.len() == c);
    assert forall|i: int| 0 <= i < a implies name[i] != UNDERSCORE by {
        assert(is_digit(d1[i]));
    }
    assert forall|i: int| a + 1 <= i < b implies name[i] != UNDERSCORE by {
        assert(is_digit(d2[i - a - 1]));
    }
    assert forall|i: int| b + 1 <= i < c implies name[i] != UNDERSCORE by {
        assert(is_digit(d3[i - b - 1]));
    }
    lemma_field_end(name, 0, a);
    lemma_field_end(name, a + 1, b);
    lemma_field_end(name, b + 1, c);
    assert(name.subrange(0, a) =~= d1);
    assert(name.subrange(a + 1, b) =~= d2);
    assert(name.subrange(b + 1, c) =~= d3);
    assert(is_digit(d2[0]) && is_digit(d3[0]));
    assert(unsigned(d2) == d2);
    assert(unsigned(d3) == d3);
}

/// The three numbers in the name of a plot file identify it: files of
/// different accounts, first nonces or numbers of nonces have different
/// names.
pub proof fn lemma_name_identifies(
    id: u64,
    start: u64,
    count: u64,
    other_id: u64,
    other_start: u64,
    other_count: u64,
)
    requires
        plot_name(id, start, count) == plot_name(other_id, other_start, other_count),
    ensures
        id == other_id,
        start == other_start,
        count == other_count,
{
    let name = name_bytes(plot_name(id, start, count));
    lemma_name_is_read(id, start, count);
    lemma_name_is_read(other_id, other_start, other_count);
    assert(is_numeral_of(name.subrange(0, field_end(name, 0)), id));
    assert(is_numeral_of(name.subrange(0, field_end(name, 0)), other_id));
}

/// Index of the first underscore of `name` at or behind `from`.
fn find_field_end(name: &[u8], from: usize) -> (end: usize)
    requires
        from <= name@.len(),
    ensures
        end == field_end(name@, from as int),
        from <= end <= name@.len(),
{
    let len: usize = name.len();
    let mut i: usize = from;
    while i < len && name[i] != UNDERSCORE
        invariant
            from <= i <= len,
            len == name@.len(),
            field_end(name@, from as int) == field_end(name@, i as int),
        decreases len - i,
    {
        i += 1;
    }
    i
}

/// Reads the number that the bytes from `from` up to `to` of `name` write.
fn read_field(name: &[u8], from: usize, to: usize) -> (value: Option<u64>)
    requires
        from <= to <= name@.len(),
    ensures
        value == field_value(name@.subrange(from as int, to as int)),
{
    let ghost field = name@.subrange(from as int, to as int);
    let first: usize = if from < to && name[from] == PLUS {
        from + 1
    } else {
        from
    };
    let ghost digits = name@.subrange(first as int, to as int);
    assert(digits =~= unsigned(field));
    if first == to {
        return None;
    }
    let mut value: u64 = 0;
    let mut i: usize = first;
    while i < to
        invariant
            first <= i <= to <= name@.len(),
            from <= to,
            digits == name@.subrange(first as int, to as int),
            digits == unsigned(name@.subrange(from as int, to as int)),
            all_digits(digits.subrange(0, i - first)),
            value == digits_value(digits.subrange(0, i - first)),
        decreases to - i,
    {
        let b: u8 = name[i];
        let ghost shorter = digits.subrange(0, i - first);
        let ghost longer = digits.subrange(0, i + 1 - first);
        assert(longer.drop_last() =~= shorter);
        assert(longer.last() == b);
        if b < 0x30 || b > 0x39 {
            assert(!is_digit(digits[i - first]));
            return None;
        }
        let d: u64 = (b - 0x30) as u64;
        if value > (u64::MAX - d) / 10 {
            proof {
                lemma_digits_grow(digits, i + 1 - first);
                assert(digits_value(longer) == value * 10 + d);
                assert(value * 10 + d > u64::MAX) by (nonlinear_arith)
                    requires
                        value > (u64::MAX - d) / 10,
                        0 <= d <= 9,
                ;
            }
            return None;
        }
        assert(value * 10 + d <= u64::MAX) by (nonlinear_arith)
            requires
                value <= (u64::MAX - d) / 10,
                0 <= d <= 9,
        ;
        value = value * 10 + d;
        assert forall|t: int| 0 <= t < longer.len() implies is_digit(#[trigger] longer[t]) by {
            if t < shorter.len() {
                assert(longer[t] == shorter[t]);
            }
        }
        i += 1;
    }
    assert(digits.subrange(0, to - first) =~= digits);
    Some(value)
}

/// Whether the bytes before `to` of `name` are the decimal numeral of `id`.
fn names_account(name: &[u8], to: usize, id: u64) -> (yes: bool)
    requires
        to <= name@.len(),
    ensures
        yes == is_numeral_of(name@.subrange(0, to as int), id),
{
    let ghost field = name@.subrange(0, to as int);
    if to == 0 {
        return false;
    }
    if name[0] == PLUS {
        assert(!is_digit(field[0]));
        return false;
    }
    if to > 1 && name[0] == 0x30 {
        assert(field[0] == 0x30);
        return false;
    }
    assert(unsigned(field) =~= field);
    match read_field(name, 0, to) {
        Some(value) => value == id,
        None => {
            assert(digits_value(field) <= u64::MAX ==> !all_digits(field));
            false
        },
    }
}

/// Reads the segment that the file name `name` claims for the account
/// `numeric_id`.
pub fn read_segment(name: &[u8], numeric_id: u64) -> (segment: Option<(u64, u64)>)
    ensures
        segment == segment_of(name@, numeric_id),
{
    let len: usize = name.len();
    let a: usize = find_field_end(name, 0);
    if a >= len {
        return None;
    }
    let b: usize = find_field_end(name, a + 1);
    if b >= len {
        return None;
    }
    let c: usize = find_field_end(name, b + 1);
    if !names_account(name, a, numeric_id) {
        return None;
    }
    match read_field(name, a + 1, b) {
        None => None,
        Some(start) => match read_field(name, b + 1, c) {
            None => None,
            Some(count) => Some((start, count)),
        },
    }
}

/// Where the next plot file of account `numeric_id` starts, given the names
/// of the files in its directory: behind the last nonce that any of them
/// claims for the account, or at 0.  Names that claim nothing for the account
/// count for nothing.
pub fn next_start_nonce(names: &Vec<Vec<u8>>, numeric_id: u64) -> (start: u64)
    ensures
        start == next_start(names_of(names@), numeric_id),
{
    let ghost all = names_of(names@);
    let mut start: u64 = 0;
    let mut i: usize = 0;
    while i < names.len()
        invariant
            i <= names@.len(),
            all == names_of(names@),
            start == next_start(all.subrange(0, i as int), numeric_id),
        decreases names@.len() - i,
    {
        let ghost longer = all.subrange(0, i + 1);
        assert(longer.drop_last() =~= all.subrange(0, i as int));
        assert(longer.last() == names@[i as int]@);
        match read_segment(names[i].as_slice(), numeric_id) {
            Some((first, count)) => {
                if count <= u64::MAX - first && first + count > start {
                    start = first + count;
                }
            },
            None => {},
        }
        i += 1;
    }
    assert(all.subrange(0, names@.len() as int) =~= all);
    start
}

/// First nonce of file `index` of a row of files of `nonces` nonces each, of
/// which the first starts at `first`; nothing where it passes the largest
/// nonce index.
pub fn file_start(first: u64, index: u64, nonces: u64) -> (start: Option<u64>)
    ensures
        first + index * nonces <= u64::MAX ==> start == Some((first + index * nonces) as u64),
        first + index * nonces > u64::MAX ==> start is None,
{
    assert(0 <= index * nonces <= 0xffff_ffff_ffff_ffff * 0xffff_ffff_ffff_ffff)
        by (nonlinear_arith)
        requires
            0 <= index <= 0xffff_ffff_ffff_ffff,
            0 <= nonces <= 0xffff_ffff_ffff_ffff,
    ;
    let offset: u128 = index as u128 * nonces as u128;
    let start: u128 = first as u128 + offset;
    if start <= u64::MAX as u128 {
        Some(start as u64)
    } else {
        None
    }
}

/// CPU worker threads of a run on a machine of `cores` cores: all the cores
/// where none were requested, else the request, and at most two for each
/// core.
pub fn worker_threads(cores: u8, requested: u8) -> (threads: u8)
    ensures
        requested == 0 ==> threads == cores,
        requested > 0 && requested <= 2 * cores ==> threads == requested,
        requested > 2 * cores ==> threads == 2 * cores,
{
    if requested == 0 {
        cores
    } else if requested as u16 <= 2 * cores as u16 {
        requested
    } else {
        2 * cores
    }
}

} // verus!
