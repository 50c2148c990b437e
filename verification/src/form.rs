//! A request as a front-end takes it from its user: every number still
//! text.  The text is read and the request is checked before anything is
//! started.
use crate::hasher::{is_whitespace, number_start, white_space};
use vstd::prelude::*;

verus! {

/// What the user has filled in.
pub struct Form {
    /// The account.
    pub numeric_id: String,
    /// Index of the first nonce; not read in automatic mode.
    pub start_nonce: String,
    /// Whether the files follow those that the directory holds already.
    pub auto_mode: bool,
    /// Files to plot in automatic mode.
    pub auto_count: String,
    /// Nonces in each file.
    pub nonces: String,
    /// CPU worker threads.
    pub cpu_cores: String,
    /// Cores of the accelerator.
    pub gpu_cores: String,
    /// Whether an accelerator was chosen and can be used.
    pub gpu_chosen: bool,
}

/// What is to be plotted, once the form is read.
#[derive(Clone, Copy, Debug, PartialEq, Eq, Structural)]
pub struct Request {
    pub numeric_id: u64,
    /// Index of the first nonce; 0 in automatic mode, where the directory
    /// decides.
    pub start_nonce: u64,
    /// Nonces in each file.
    pub nonces: u64,
    pub cpu_threads: u8,
    /// Cores of the accelerator.
    pub gpu_cores: u32,
    /// Whether the accelerator takes part.
    pub gpu_enabled: bool,
    /// Files to plot in automatic mode, and nothing otherwise.
    pub auto_count: Option<u64>,
}

/// Why a form is refused.
#[derive(Clone, Copy, Debug, PartialEq, Eq, Structural)]
pub enum FormError {
    /// The account is no number.
    InvalidNumericId,
    /// The number of nonces is no number.
    InvalidNonces,
    /// The number of CPU threads is no number up to 255.
    InvalidCpuCores,
    /// More CPU threads are asked for than the machine has cores.
    TooManyCpuCores { asked: u8, cores: u8 },
    /// The number of accelerator cores is no number.
    InvalidGpuCores,
    /// Neither CPU threads nor an accelerator are to work.
    NothingEnabled,
    /// The number of files is no number, or 0.
    InvalidAutoCount,
    /// The first nonce is no number.
    InvalidStartNonce,
}

/// Whether `c` is one of the digits `0` to `9`.
pub open spec fn is_digit(c: char) -> bool {
    '0' <= c <= '9'
}

/// The number that the characters `s` write in decimal; a character that is
/// no digit counts as 0.
pub open spec fn digits_value(s: Seq<char>) -> nat
    decreases s.len(),
{
    if s.len() == 0 {
        0
    } else {
        digits_value(s.drop_last()) * 10 + if is_digit(s.last()) {
            (s.last() as u32 - 0x30) as nat
        } else {
            0
        }
    }
}

/// Index behind the last character of `text` before `to` that is no white
/// space, or 0 where there is none.
pub open spec fn text_end(text: Seq<char>, to: int) -> int
    decreases to,
{
    if to <= 0 {
        0
    } else if !white_space(text[to - 1]) {
        to
    } else {
        text_end(text, to - 1)
    }
}

/// The text without the white space at its start and at its end.
pub open spec fn trimmed(text: Seq<char>) -> Seq<char> {
    let from = number_start(text, 0);
    let to = text_end(text, text.len() as int);
    if from < to {
        text.subrange(from, to)
    } else {
        Seq::empty()
    }
}

/// The digits of a number: the text without a plus sign at its start.
pub open spec fn unsigned(s: Seq<char>) -> Seq<char> {
    if s.len() > 0 && s[0] == '+' {
        s.subrange(1, s.len() as int)
    } else {
        s
    }
}

/// The number up to `max` that a field writes: decimal digits, at least one,
/// with or without a plus sign before them and with or without white space
/// around them.  A field that holds anything else, or writes more than
/// `max`, is no number.
pub open spec fn field_number(text: Seq<char>, max: nat) -> Option<nat> {
    let digits = unsigned(trimmed(text));
    if digits.len() > 0 && (forall|i: int| 0 <= i < digits.len() ==> is_digit(#[trigger] digits[i]))
        && digits_value(digits) <= max {
        Some(digits_value(digits))
    } else {
        None
    }
}

/// The request that a form makes on a machine of `cores` cores, or the first
/// reason to refuse it: the account, the nonces and the CPU threads are
/// read in this order; more threads than cores are refused; then the
/// accelerator cores are read; a form that puts neither CPU nor accelerator
/// to work is refused; last the number of files is read in automatic mode,
/// and the first nonce otherwise.
pub open spec fn form_request(
    numeric_id: Seq<char>,
    start_nonce: Seq<char>,
    auto_mode: bool,
    auto_count: Seq<char>,
    nonces: Seq<char>,
    cpu_cores: Seq<char>,
    gpu_cores: Seq<char>,
    gpu_chosen: bool,
    cores: u8,
) -> Result<Request, FormError> {
    let id = field_number(numeric_id, u64::MAX as nat);
    let count = field_number(nonces, u64::MAX as nat);
    let cpu = field_number(cpu_cores, u8::MAX as nat);
    let gpu = field_number(gpu_cores, u32::MAX as nat);
    let files = field_number(auto_count, u64::MAX as nat);
    let start = field_number(start_nonce, u64::MAX as nat);
    if id is None {
        Err(FormError::InvalidNumericId)
    } else if count is None {
        Err(FormError::InvalidNonces)
    } else if cpu is None {
        Err(FormError::InvalidCpuCores)
    } else if cpu->Some_0 > cores {
        Err(FormError::TooManyCpuCores { asked: cpu->Some_0 as u8, cores })
    } else if gpu is None {
        Err(FormError::InvalidGpuCores)
    } else if cpu->Some_0 == 0 && !(gpu_chosen && gpu->Some_0 > 0) {
        Err(FormError::NothingEnabled)
    } else if auto_mode && (files is None || files->Some_0 == 0) {
        Err(FormError::InvalidAutoCount)
    } else if !auto_mode && start is None {
        Err(FormError::InvalidStartNonce)
    } else {
        Ok(
            Request {
                numeric_id: id->Some_0 as u64,
                start_nonce: if auto_mode {
                    0
                } else {
                    start->Some_0 as u64
                },
                nonces: count->Some_0 as u64,
                cpu_threads: cpu->Some_0 as u8,
                gpu_cores: gpu->Some_0 as u32,
                gpu_enabled: gpu_chosen && gpu->Some_0 > 0,
                auto_count: if auto_mode {
                    Some(files->Some_0 as u64)
                } else {
                    None
                },
            },
        )
    }
}

/// The digits before the last ones write a number that is no greater.
pub proof fn lemma_digits_grow(s: Seq<char>, k: int)
    requires
        0 <= k <= s.len(),
    ensures
        digits_value(s.subrange(0, k)) <= digits_value(s),
    decreases s.len() - k,
{
    if k < s.len() {
        lemma_digits_grow(s, k + 1);
        let longer = s.subrange(0, k + 1);
        assert(longer.drop_last() =~= s.subrange(0, k));
    } else {
        assert(s.subrange(0, k) =~= s);
    }
}

/// Reads the number up to `max` that the field `text` writes.
pub fn read_number(text: &str, max: u64) -> (value: Option<u64>)
    ensures
        value is Some <==> field_number(text@, max as nat) is Some,
        value is Some ==> value->Some_0 == field_number(text@, max as nat)->Some_0,
{
    let len: usize = text.unicode_len();
    let mut from: usize = 0;
    while from < len && is_whitespace(text.get_char(from))
        invariant
            from <= len,
            len == text@.len(),
            number_start(text@, 0) == number_start(text@, from as int),
        decreases len - from,
    {
        from += 1;
    }
    let mut to: usize = len;
    while to > 0 && is_whitespace(text.get_char(to - 1))
        invariant
            to <= len,
            len == text@.len(),
            text_end(text@, len as int) == text_end(text@, to as int),
        decreases to,
    {
        to -= 1;
    }
    if from >= to {
        return None;
    }
    let ghost body = text@.subrange(from as int, to as int);
    assert(body == trimmed(text@));
    let first: usize = if text.get_char(from) == '+' {
        from + 1
    } else {
        from
    };
    let ghost digits = text@.subrange(first as int, to as int);
    assert(digits =~= unsigned(body));
    if first == to {
        return None;
    }
    let mut value: u64 = 0;
    let mut i: usize = first;
    while i < to
        invariant
            first <= i <= to <= len,
            len == text@.len(),
            digits == text@.subrange(first as int, to as int),
            digits == unsigned(trimmed(text@)),
            forall|t: int| 0 <= t < i - first ==> is_digit(#[trigger] digits[t]),
            value == digits_value(digits.subrange(0, i - first)),
            value <= max,
        decreases to - i,
    {
        let c: char = text.get_char(i);
        let ghost shorter = digits.subrange(0, i - first);
        let ghost longer = digits.subrange(0, i + 1 - first);
        assert(longer.drop_last() =~= shorter);
        assert(longer.last() == c);
        if c < '0' || c > '9' {
            assert(!is_digit(digits[i - first]));
            return None;
        }
        let d: u64 = (c as u32 - 0x30) as u64;
        if d > max || value > (max - d) / 10 {
            proof {
                lemma_digits_grow(digits, i + 1 - first);
                assert(digits_value(longer) == value * 10 + d);
                if d <= max {
                    assert(value * 10 + d > max) by (nonlinear_arith)
                        requires
                            value > (max - d) / 10,
                            0 <= d <= max,
                    ;
                }
            }
            return None;
        }
        assert(value * 10 + d <= max) by (nonlinear_arith)
            requires
                value <= (max - d) / 10,
                0 <= d <= max,
        ;
        value = value * 10 + d;
        i += 1;
    }
    assert(digits.subrange(0, to - first) =~= digits);
    Some(value)
}

/// Reads `form` for a machine of `cores` cores: gives the request it makes,
/// or the first reason to refuse it.
pub fn read_form(form: &Form, cores: u8) -> (request: Result<Request, FormError>)
    ensures
        request == form_request(
            form.numeric_id@,
            form.start_nonce@,
            form.auto_mode,
            form.auto_count@,
            form.nonces@,
            form.cpu_cores@,
            form.gpu_cores@,
            form.gpu_chosen,
            cores,
        ),
{
    let numeric_id: u64 = match read_number(form.numeric_id.as_str(), u64::MAX) {
        Some(v) => v,
        None => {
            return Err(FormError::InvalidNumericId);
        },
    };
    let nonces: u64 = match read_number(form.nonces.as_str(), u64::MAX) {
        Some(v) => v,
        None => {
            return Err(FormError::InvalidNonces);
        },
    };
    let cpu_threads: u8 = match read_number(form.cpu_cores.as_str(), 255) {
        Some(v) => v as u8,
        None => {
            return Err(FormError::InvalidCpuCores);
        },
    };
    if cpu_threads > cores {
        return Err(FormError::TooManyCpuCores { asked: cpu_threads, cores });
    }
    let gpu_cores: u32 = match read_number(form.gpu_cores.as_str(), 0xffff_ffff) {
        Some(v) => v as u32,
        None => {
            return Err(FormError::InvalidGpuCores);
        },
    };
    let gpu_enabled: bool = form.gpu_chosen && gpu_cores > 0;
    if cpu_threads == 0 && !gpu_enabled {
        return Err(FormError::NothingEnabled);
    }
    if form.auto_mode {
        match read_number(form.auto_count.as_str(), u64::MAX) {
            Some(files) => {
                if files == 0 {
                    return Err(FormError::InvalidAutoCount);
                }
                Ok(
                    Request {
                        numeric_id,
                        start_nonce: 0,
                        nonces,
                        cpu_threads,
                        gpu_cores,
                        gpu_enabled,
                        auto_count: Some(files),
                    },
                )
            },
            None => Err(FormError::InvalidAutoCount),
        }
    } else {
        match read_number(form.start_nonce.as_str(), u64::MAX) {
            Some(start_nonce) => Ok(
                Request {
                    numeric_id,
                    start_nonce,
                    nonces,
                    cpu_threads,
                    gpu_cores,
                    gpu_enabled,
                    auto_count: None,
                },
            ),
            None => Err(FormError::InvalidStartNonce),
        }
    }
}

} // verus!
