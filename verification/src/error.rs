//! SCPI errors and the queue in which they accumulate.
//!
//! SCPI-99 does not report failures by aborting: the instrument accepts the
//! command, records the error in a queue and carries on. The client collects
//! them with `SYSTem:ERRor?`, which answers `-113,"Undefined header"` and
//! drains the queue until `0,"No error"` comes out.
use vstd::prelude::*;
use std::collections::VecDeque;
use crate::status::esr;
use crate::text::{chars_of, int_text, push_chars, push_int_text, string_from};

verus! {

/// Error codes normalised by SCPI-99, chapter 21.
///
/// The negative ones are defined by the standard; positive ones are left to
/// the instrument.
#[derive(Debug, Clone, Copy, PartialEq, Eq, Structural)]
pub enum ErrorCode {
    NoError,
    /// -100: generic command error.
    CommandError,
    /// -102: the message does not follow the syntax.
    SyntaxError,
    /// -108: too many parameters.
    ParameterNotAllowed,
    /// -109: a mandatory parameter is missing.
    MissingParameter,
    /// -113: the header matches no known command.
    UndefinedHeader,
    /// -151: malformed string.
    InvalidStringData,
    /// -200: generic execution error.
    ExecutionError,
    /// -221: the current state prevents the command.
    SettingsConflict,
    /// -222: the value is outside the accepted range.
    DataOutOfRange,
    /// -224: the value is not one of those accepted.
    IllegalParameterValue,
    /// -350: errors were lost because the queue overflowed.
    QueueOverflow,
    /// -410: an unread answer was lost.
    QueryInterrupted,
}

/// The number the standard assigns to each code.
pub open spec fn code_value(c: ErrorCode) -> int {
    match c {
        ErrorCode::NoError => 0,
        ErrorCode::CommandError => -100,
        ErrorCode::SyntaxError => -102,
        ErrorCode::ParameterNotAllowed => -108,
        ErrorCode::MissingParameter => -109,
        ErrorCode::UndefinedHeader => -113,
        ErrorCode::InvalidStringData => -151,
        ErrorCode::ExecutionError => -200,
        ErrorCode::SettingsConflict => -221,
        ErrorCode::DataOutOfRange => -222,
        ErrorCode::IllegalParameterValue => -224,
        ErrorCode::QueueOverflow => -350,
        ErrorCode::QueryInterrupted => -410,
    }
}

/// The exact text the standard requires for each code.
pub open spec fn message_text(c: ErrorCode) -> Seq<char> {
    match c {
        ErrorCode::NoError => "No error"@,
        ErrorCode::CommandError => "Command error"@,
        ErrorCode::SyntaxError => "Syntax error"@,
        ErrorCode::ParameterNotAllowed => "Parameter not allowed"@,
        ErrorCode::MissingParameter => "Missing parameter"@,
        ErrorCode::UndefinedHeader => "Undefined header"@,
        ErrorCode::InvalidStringData => "Invalid string data"@,
        ErrorCode::ExecutionError => "Execution error"@,
        ErrorCode::SettingsConflict => "Settings conflict"@,
        ErrorCode::DataOutOfRange => "Data out of range"@,
        ErrorCode::IllegalParameterValue => "Illegal parameter value"@,
        ErrorCode::QueueOverflow => "Queue overflow"@,
        ErrorCode::QueryInterrupted => "Query INTERRUPTED"@,
    }
}

/// The bit of the standard event register that a code of this number sets:
/// 5 for command errors, 4 for execution errors, 3 for device errors and 2
/// for query errors.
pub open spec fn esr_bit_of(n: int) -> u8 {
    if n == 0 {
        0
    } else if -199 <= n <= -100 {
        5
    } else if -299 <= n <= -200 {
        4
    } else if -399 <= n <= -300 {
        3
    } else if -499 <= n <= -400 {
        2
    } else {
        3
    }
}

impl ErrorCode {
    pub fn code(self) -> (r: i16)
        ensures
            r == code_value(self),
    {
        match self {
            ErrorCode::NoError => 0,
            ErrorCode::CommandError => -100,
            ErrorCode::SyntaxError => -102,
            ErrorCode::ParameterNotAllowed => -108,
            ErrorCode::MissingParameter => -109,
            ErrorCode::UndefinedHeader => -113,
            ErrorCode::InvalidStringData => -151,
            ErrorCode::ExecutionError => -200,
            ErrorCode::SettingsConflict => -221,
            ErrorCode::DataOutOfRange => -222,
            ErrorCode::IllegalParameterValue => -224,
            ErrorCode::QueueOverflow => -350,
            ErrorCode::QueryInterrupted => -410,
        }
    }

    /// The exact text of the standard. Some clients compare it.
    pub fn message(self) -> (r: &'static str)
        ensures
            r@ == message_text(self),
    {
        match self {
            ErrorCode::NoError => "No error",
            ErrorCode::CommandError => "Command error",
            ErrorCode::SyntaxError => "Syntax error",
            ErrorCode::ParameterNotAllowed => "Parameter not allowed",
            ErrorCode::MissingParameter => "Missing parameter",
            ErrorCode::UndefinedHeader => "Undefined header",
            ErrorCode::InvalidStringData => "Invalid string data",
            ErrorCode::ExecutionError => "Execution error",
            ErrorCode::SettingsConflict => "Settings conflict",
            ErrorCode::DataOutOfRange => "Data out of range",
            ErrorCode::IllegalParameterValue => "Illegal parameter value",
            ErrorCode::QueueOverflow => "Queue overflow",
            ErrorCode::QueryInterrupted => "Query INTERRUPTED",
        }
    }

    /// The bit of the standard event register (ESR) that this error sets.
    pub fn esr_bit(self) -> (r: u8)
        ensures
            r == esr_bit_of(code_value(self)),
    {
        let c = self.code();
        if c == 0 {
            0
        } else if -199 <= c && c <= -100 {
            5
        } else if -299 <= c && c <= -200 {
            4
        } else if -399 <= c && c <= -300 {
            3
        } else if -499 <= c && c <= -400 {
            2
        } else {
            3
        }
    }
}

/// The abstract content of an error: its code and its optional detail.
pub struct ScpiErrorView {
    pub code: ErrorCode,
    pub detail: Option<Seq<char>>,
}

/// A concrete error: its code and, optionally, added information.
#[derive(Debug, Clone, PartialEq, Eq)]
pub struct ScpiError {
    pub code: ErrorCode,
    /// Detail appended to the standard message after a semicolon, as in
    /// `-113,"Undefined header;MEAS:FOO"`.
    pub detail: Option<String>,
}

impl View for ScpiError {
    type V = ScpiErrorView;

    open spec fn view(&self) -> ScpiErrorView {
        ScpiErrorView {
            code: self.code,
            detail: match self.detail {
                Some(d) => Some(d@),
                None => None,
            },
        }
    }
}

/// An error without detail.
pub open spec fn plain_error(code: ErrorCode) -> ScpiErrorView {
    ScpiErrorView { code, detail: None }
}

/// The exact answer of `SYSTem:ERRor?` for an error.
pub open spec fn error_text(e: ScpiErrorView) -> Seq<char> {
    let body = match e.detail {
        Some(d) => message_text(e.code) + seq![';'] + d,
        None => message_text(e.code),
    };
    int_text(code_value(e.code)) + seq![',', '"'] + body + seq!['"']
}

impl ScpiError {
    pub fn new(code: ErrorCode) -> (r: Self)
        ensures
            r@ == plain_error(code),
    {
        ScpiError { code, detail: None }
    }

    pub fn with_detail(code: ErrorCode, detail: &str) -> (r: Self)
        ensures
            r@ == (ScpiErrorView { code, detail: Some(detail@) }),
    {
        ScpiError { code, detail: Some(detail.to_owned()) }
    }

    /// The exact answer format of `SYSTem:ERRor?`.
    pub fn to_string(&self) -> (r: String)
        ensures
            r@ == error_text(self@),
    {
        let mut out: Vec<char> = Vec::new();
        push_int_text(&mut out, self.code.code() as i64);
        out.push(',');
        out.push('"');
        let msg = chars_of(self.code.message());
        let mut s = string_from(&out);
        push_chars(&mut s, &msg);
        match &self.detail {
            Some(d) => {
                crate::text::push_char(&mut s, ';');
                let dv = chars_of(d.as_str());
                push_chars(&mut s, &dv);
            },
            None => {},
        }
        crate::text::push_char(&mut s, '"');
        let ghost head = int_text(code_value(self.code)) + seq![',', '"'];
        assert(out@ == head);
        proof {
            match self@.detail {
                Some(d) => {
                    assert(s@ == head + message_text(self.code) + seq![';'] + d + seq!['"']);
                    assert(error_text(self@) =~= head + (message_text(self.code) + seq![';'] + d)
                        + seq!['"']);
                },
                None => {
                    assert(error_text(self@) =~= head + message_text(self.code) + seq!['"']);
                },
            }
        }
        s
    }
}

impl From<ErrorCode> for ScpiError {
    fn from(code: ErrorCode) -> (r: Self) {
        ScpiError::new(code)
    }
}

impl vstd::std_specs::convert::FromSpecImpl<ErrorCode> for ScpiError {
    open spec fn obeys_from_spec() -> bool {
        true
    }

    open spec fn from_spec(code: ErrorCode) -> ScpiError {
        ScpiError { code, detail: None }
    }
}

/// The abstract state of an error queue.
pub struct ErrorQueueView {
    /// The errors waiting, oldest first.
    pub entries: Seq<ScpiErrorView>,
    pub capacity: nat,
    /// Whether an error was lost since the queue was last emptied.
    pub overflowed: bool,
}

/// Recording an error: kept at the back when there is room; when only the
/// last slot is left the new error is dropped and the overflow is marked,
/// because the old errors are the ones that explain the original cause.
pub open spec fn queue_push(q: ErrorQueueView, e: ScpiErrorView) -> ErrorQueueView {
    if q.entries.len() + 1 >= q.capacity {
        ErrorQueueView { overflowed: true, ..q }
    } else {
        ErrorQueueView { entries: q.entries.push(e), ..q }
    }
}

/// Taking the oldest error; with none left, the overflow notice once, and
/// then `NoError`.
pub open spec fn queue_pop(q: ErrorQueueView) -> (ScpiErrorView, ErrorQueueView) {
    if q.entries.len() > 0 {
        (q.entries[0], ErrorQueueView { entries: q.entries.drop_first(), ..q })
    } else if q.overflowed {
        (plain_error(ErrorCode::QueueOverflow), ErrorQueueView { overflowed: false, ..q })
    } else {
        (plain_error(ErrorCode::NoError), q)
    }
}

/// An empty queue of the given capacity.
pub open spec fn empty_queue(capacity: nat) -> ErrorQueueView {
    ErrorQueueView { entries: Seq::empty(), capacity, overflowed: false }
}

/// The error queue of an instrument, first in first out.
///
/// The standard demands at least 2 slots and that, once full, the last slot
/// is kept for `-350,"Queue overflow"`.
#[derive(Debug)]
pub struct ErrorQueue {
    entries: VecDeque<ScpiError>,
    capacity: usize,
    overflowed: bool,
}

impl View for ErrorQueue {
    type V = ErrorQueueView;

    closed spec fn view(&self) -> ErrorQueueView {
        ErrorQueueView {
            entries: self.entries@.map_values(|e: ScpiError| e@),
            capacity: self.capacity as nat,
            overflowed: self.overflowed,
        }
    }
}

impl ErrorQueue {
    pub fn new(capacity: usize) -> (r: Self)
        requires
            capacity >= 2,
        ensures
            r@ == empty_queue(capacity as nat),
    {
        let r = ErrorQueue { entries: VecDeque::new(), capacity, overflowed: false };
        assert(r@.entries =~= Seq::<ScpiErrorView>::empty());
        r
    }

    /// Records an error; see [`queue_push`].
    pub fn push(&mut self, error: ScpiError)
        ensures
            final(self)@ == queue_push(old(self)@, error@),
    {
        if self.capacity == 0 || self.entries.len() >= self.capacity - 1 {
            self.overflowed = true;
            return;
        }
        let ghost before = self.entries@;
        self.entries.push_back(error);
        assert(self.entries@.map_values(|e: ScpiError| e@) =~= before.map_values(
            |e: ScpiError| e@,
        ).push(error@));
    }

    /// Takes the oldest error; see [`queue_pop`].
    pub fn pop(&mut self) -> (r: ScpiError)
        ensures
            (r@, final(self)@) == queue_pop(old(self)@),
    {
        let ghost before = self.entries@;
        if let Some(e) = self.entries.pop_front() {
            assert(self.entries@.map_values(|e: ScpiError| e@) =~= before.map_values(
                |e: ScpiError| e@,
            ).drop_first());
            return e;
        }
        if self.overflowed {
            self.overflowed = false;
            return ScpiError::new(ErrorCode::QueueOverflow);
        }
        ScpiError::new(ErrorCode::NoError)
    }

    pub fn len(&self) -> (r: usize)
        ensures
            r == self@.entries.len(),
    {
        self.entries.len()
    }

    /// No error waiting and no overflow pending.
    pub fn is_empty(&self) -> (r: bool)
        ensures
            r == (self@.entries.len() == 0 && !self@.overflowed),
    {
        self.entries.len() == 0 && !self.overflowed
    }

    /// Empties the queue, which is what `*CLS` does.
    pub fn clear(&mut self)
        ensures
            final(self)@ == empty_queue(old(self)@.capacity),
    {
        self.entries.clear();
        self.overflowed = false;
        assert(self@.entries =~= Seq::<ScpiErrorView>::empty());
    }
}

impl Default for ErrorQueue {
    /// A queue of 32 slots.
    fn default() -> (r: Self)
        ensures
            r@ == empty_queue(32),
    {
        ErrorQueue::new(32)
    }
}

/// The queue after recording each error of `es` in turn.
pub open spec fn push_all(q: ErrorQueueView, es: Seq<ScpiErrorView>) -> ErrorQueueView
    decreases es.len(),
{
    if es.len() == 0 {
        q
    } else {
        queue_push(push_all(q, es.drop_last()), es.last())
    }
}

/// The answers of `n` successive pops, and the queue left behind.
pub open spec fn pop_all(q: ErrorQueueView, n: nat) -> (Seq<ScpiErrorView>, ErrorQueueView)
    decreases n,
{
    if n == 0 {
        (Seq::empty(), q)
    } else {
        let (e, q1) = queue_pop(q);
        let (rest, q2) = pop_all(q1, (n - 1) as nat);
        (seq![e] + rest, q2)
    }
}

/// How many of `n` recorded errors an empty queue of capacity `capacity`
/// keeps: all of them, up to one less than the capacity.
pub open spec fn kept(n: nat, capacity: nat) -> nat {
    if n + 1 < capacity {
        n
    } else {
        (capacity - 1) as nat
    }
}

/// Recording errors in an empty queue keeps the oldest ones, as many as fit
/// below the capacity, and marks the overflow exactly when some were lost.
pub proof fn law_queue_keeps_the_oldest(capacity: nat, es: Seq<ScpiErrorView>)
    requires
        capacity >= 2,
    ensures
        push_all(empty_queue(capacity), es) == (ErrorQueueView {
            entries: es.take(kept(es.len(), capacity) as int),
            capacity,
            overflowed: es.len() + 1 > capacity,
        }),
    decreases es.len(),
{
    if es.len() > 0 {
        law_queue_keeps_the_oldest(capacity, es.drop_last());
        let k = kept((es.len() - 1) as nat, capacity);
        if es.len() < capacity {
            assert(es.drop_last().take(k as int).push(es.last()) =~= es.take(es.len() as int));
        } else {
            assert(es.drop_last().take(k as int) =~= es.take(kept(es.len(), capacity) as int));
        }
    } else {
        assert(es.take(0) =~= Seq::<ScpiErrorView>::empty());
    }
}

/// Errors come out in the order in which they went in.
pub proof fn law_queue_is_fifo(q: ErrorQueueView, n: nat)
    requires
        n <= q.entries.len(),
    ensures
        pop_all(q, n) == (q.entries.take(n as int), ErrorQueueView { entries: q.entries.skip(n as int), ..q }),
    decreases n,
{
    if n > 0 {
        let q1 = queue_pop(q).1;
        law_queue_is_fifo(q1, (n - 1) as nat);
        assert(q1.entries.skip((n - 1) as int) =~= q.entries.skip(n as int));
        assert(seq![q.entries[0]] + q1.entries.take((n - 1) as int) =~= q.entries.take(n as int));
    } else {
        assert(q.entries.take(0) =~= Seq::<ScpiErrorView>::empty());
        assert(q.entries.skip(0) =~= q.entries);
    }
}

/// Once the recorded errors have been read, a lost error is reported once
/// with `QueueOverflow`, and from then on the answer is `NoError`, with the
/// queue left as it is.
pub proof fn law_drained_queue_answers(q: ErrorQueueView)
    requires
        q.entries.len() == 0,
    ensures
        queue_pop(q).0 == plain_error(if q.overflowed { ErrorCode::QueueOverflow } else { ErrorCode::NoError }),
        queue_pop(queue_pop(q).1).0 == plain_error(ErrorCode::NoError),
        queue_pop(queue_pop(q).1).1 == (ErrorQueueView { overflowed: false, ..q }),
{
}

/// The numbers SCPI assigns to the errors, and the bit of the standard event
/// register each family sets: command errors (-1xx) the command-error bit,
/// execution errors (-2xx) the execution-error bit, device errors (-3xx)
/// the device-error bit and query errors (-4xx) the query-error bit.
pub proof fn law_error_numbers_and_families()
    ensures
        code_value(ErrorCode::NoError) == 0,
        code_value(ErrorCode::CommandError) == -100,
        code_value(ErrorCode::SyntaxError) == -102,
        code_value(ErrorCode::ParameterNotAllowed) == -108,
        code_value(ErrorCode::MissingParameter) == -109,
        code_value(ErrorCode::UndefinedHeader) == -113,
        code_value(ErrorCode::InvalidStringData) == -151,
        code_value(ErrorCode::ExecutionError) == -200,
        code_value(ErrorCode::SettingsConflict) == -221,
        code_value(ErrorCode::DataOutOfRange) == -222,
        code_value(ErrorCode::IllegalParameterValue) == -224,
        code_value(ErrorCode::QueueOverflow) == -350,
        code_value(ErrorCode::QueryInterrupted) == -410,
        forall|n: int| -199 <= n <= -100 ==> esr_bit_of(n) == esr::COMMAND_ERROR,
        forall|n: int| -299 <= n <= -200 ==> esr_bit_of(n) == esr::EXECUTION_ERROR,
        forall|n: int| -399 <= n <= -300 ==> esr_bit_of(n) == esr::DEVICE_ERROR,
        forall|n: int| -499 <= n <= -400 ==> esr_bit_of(n) == esr::QUERY_ERROR,
{
}

} // verus!
