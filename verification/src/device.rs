//! The minimal contract of an SCPI device and the dispatch of what every
//! device must understand.
//!
//! IEEE 488.2 requires **every** device to understand a handful of common
//! commands: `*IDN?`, `*RST`, `*CLS`, `*ESE`, `*ESR?`, `*OPC`, `*SRE`,
//! `*STB?`, `*TST?` and `*WAI`. SCPI adds `SYSTem:ERRor?` and
//! `SYSTem:VERSion?`. They are implemented once, here, behind the
//! [`ScpiDevice`] contract, which takes nothing for granted about how the device is
//! built.
//!
//! Numeric parameters (the masks of `*ESE` and `*SRE`) are read by a function
//! that the caller supplies: the dispatch only needs the 8-bit mask it yields,
//! or the error that reading the parameter produced.
use vstd::prelude::*;
use crate::error::{
    code_value, empty_queue, error_text, esr_bit_of, queue_pop, queue_push, ErrorCode,
    ErrorQueue, ErrorQueueView, ScpiError, ScpiErrorView,
};
use crate::format::nr1;
use crate::parse::{parse_message, parse_message_spec, Command, CommandView};
use crate::pattern::{pattern_segments, split_nonempty, SegmentSpec};
use crate::status::{bit_mask, esr, status_byte_of, StatusModel, StatusView};
use crate::table::{first_match, CommandTable};
use crate::text::{chars_of, eq_chars, int_text, push_char, push_str};

verus! {

/// What a device must provide besides the common dispatch: its identity,
/// its reset, its self test and its own commands.
///
/// The status registers and the error queue that the common dispatch reads
/// and writes are handed to [`handle_message`] beside the device. What the
/// device answers is its own business: the dispatch is specified for every
/// answer it may give (see [`DeviceReplies`]). A device that records its
/// calls also learns from [`handle_message`] which of its methods were
/// called, on which commands and in which order.
pub trait ScpiDevice {
    /// Whether the device keeps the record of [`calls`](ScpiDevice::calls)
    /// and answers [`identity`](ScpiDevice::identity) as the methods below
    /// promise. A device that does not, which is the default, promises
    /// nothing about either.
    open spec fn records_calls(&self) -> bool {
        false
    }

    /// The calls that may change the device, oldest first, each with what it
    /// answered: its resets and its own commands.
    open spec fn calls(&self) -> Seq<DeviceCall> {
        Seq::empty()
    }

    /// What the device, as it stands, answers to `*IDN?`.
    open spec fn identity(&self) -> Seq<char> {
        Seq::empty()
    }

    /// The string answered to `*IDN?`: four comma-separated fields.
    fn idn(&self) -> (r: String)
        ensures
            self.records_calls() ==> r@ == self.identity(),
    ;

    /// Back to the power-on state, which is what `*RST` does.
    fn reset(&mut self)
        ensures
            final(self).records_calls() == old(self).records_calls(),
            old(self).records_calls() ==> final(self).calls() == old(self).calls().push(DeviceCall::Reset),
    ;

    /// Self test. Zero means it went well, which is what `*TST?` requires.
    /// It leaves the record of calls as it was.
    fn self_test(&mut self) -> (r: i64)
        ensures
            final(self).records_calls() == old(self).records_calls(),
            old(self).records_calls() ==> final(self).calls() == old(self).calls(),
        default_ensures
            r == 0,
    {
        0
    }

    /// The device's own commands. When this is called, the common commands
    /// and the shared `SYSTem` commands have already been ruled out.
    fn execute(&mut self, cmd: &Command) -> (r: Result<Option<String>, ScpiError>)
        ensures
            final(self).records_calls() == old(self).records_calls(),
            old(self).records_calls() ==> final(self).calls() == old(self).calls().push(
                DeviceCall::Execute(cmd@, answer_view(r)),
            ),
    ;
}

/// A call that may change a device, with what it answered.
pub enum DeviceCall {
    /// `reset`, which `*RST` asks for.
    Reset,
    /// `execute` on a command, and its outcome.
    Execute(CommandView, Result<Option<Seq<char>>, ScpiErrorView>),
}

/// The registers that the common dispatch reads and writes.
pub struct Registers {
    pub status: StatusView,
    pub errors: ErrorQueueView,
}

/// The registers held by a status model and an error queue.
pub open spec fn registers(status: StatusModel, errors: ErrorQueue) -> Registers {
    Registers { status: status@, errors: errors@ }
}

/// What the device answered while a line was processed, in the order it was
/// asked: to `*IDN?`, to `*TST?`, and to its own commands.
pub struct DeviceReplies {
    pub idn: Seq<Seq<char>>,
    pub self_test: Seq<i64>,
    pub execute: Seq<Result<Option<Seq<char>>, ScpiErrorView>>,
}

/// No answer at all.
pub open spec fn no_replies() -> DeviceReplies {
    DeviceReplies { idn: Seq::empty(), self_test: Seq::empty(), execute: Seq::empty() }
}

/// The answers of `a` followed by those of `b`.
pub open spec fn concat_replies(a: DeviceReplies, b: DeviceReplies) -> DeviceReplies {
    DeviceReplies { idn: a.idn + b.idn, self_test: a.self_test + b.self_test, execute: a.execute + b.execute }
}

/// One answer to `*IDN?`.
pub open spec fn idn_reply(s: Seq<char>) -> DeviceReplies {
    DeviceReplies { idn: seq![s], ..no_replies() }
}

/// One answer to `*TST?`.
pub open spec fn self_test_reply(t: i64) -> DeviceReplies {
    DeviceReplies { self_test: seq![t], ..no_replies() }
}

/// One answer to one of the device's own commands.
pub open spec fn execute_reply(x: Result<Option<Seq<char>>, ScpiErrorView>) -> DeviceReplies {
    DeviceReplies { execute: seq![x], ..no_replies() }
}

/// The abstract outcome of a command.
pub open spec fn answer_view(r: Result<Option<String>, ScpiError>) -> Result<Option<Seq<char>>, ScpiErrorView> {
    match r {
        Ok(Some(s)) => Ok(Some(s@)),
        Ok(None) => Ok(None),
        Err(e) => Err(e@),
    }
}

/// The abstract outcome of reading a mask parameter.
pub open spec fn mask_result_view(r: Result<u8, ScpiError>) -> Result<u8, ScpiErrorView> {
    match r {
        Ok(m) => Ok(m),
        Err(e) => Err(e@),
    }
}

/// The reader of mask parameters accepts every command and its outcome
/// depends only on the command's content.
pub open spec fn mask_reader_ok<M: Fn(&Command) -> Result<u8, ScpiError>>(mask: M) -> bool {
    &&& forall|c: &Command| #[trigger] mask.requires((c,))
    &&& forall|c1: &Command, c2: &Command, r1: Result<u8, ScpiError>, r2: Result<u8, ScpiError>|
        #![trigger mask.ensures((c1,), r1), mask.ensures((c2,), r2)]
        c1@ == c2@ && mask.ensures((c1,), r1) && mask.ensures((c2,), r2) ==> mask_result_view(r1)
            == mask_result_view(r2)
}

/// The outcome the mask reader gives for a command.
pub open spec fn mask_of<M: Fn(&Command) -> Result<u8, ScpiError>>(mask: M, c: CommandView) -> Result<u8, ScpiErrorView> {
    let (c2, r) = choose|c2: &Command, r: Result<u8, ScpiError>|
        #![trigger mask.ensures((c2,), r)]
        c2@ == c && mask.ensures((c2,), r);
    mask_result_view(r)
}

/// An error with a detail.
pub open spec fn error_with(code: ErrorCode, detail: Seq<char>) -> ScpiErrorView {
    ScpiErrorView { code, detail: Some(detail) }
}

/// The registers with the status replaced.
pub open spec fn set_status(g: Registers, s: StatusView) -> Registers {
    Registers { status: s, ..g }
}

/// Recording an error: into the queue, and its family's bit into the event
/// register.
pub open spec fn note_error(g: Registers, e: ScpiErrorView) -> Registers {
    Registers {
        errors: queue_push(g.errors, e),
        status: StatusView { event: g.status.event | bit_mask(esr_bit_of(code_value(e.code))), ..g.status },
    }
}

/// An outcome of a command: the registers, the device answers not yet used,
/// and the result.
pub type Step = (Registers, DeviceReplies, Result<Option<Seq<char>>, ScpiErrorView>);

/// The IEEE 488.2 common commands, those that start with an asterisk.
pub open spec fn common_spec<M: Fn(&Command) -> Result<u8, ScpiError>>(g: Registers, rep: DeviceReplies, cmd: CommandView, mask: M) -> Step {
    let h = cmd.header;
    let q = cmd.query;
    let s = g.status;
    if h == "*IDN"@ && q {
        (g, DeviceReplies { idn: rep.idn.drop_first(), ..rep }, Ok(Some(rep.idn[0])))
    } else if h == "*RST"@ && !q {
        (g, rep, Ok(None))
    } else if h == "*CLS"@ && !q {
        (Registers { errors: empty_queue(g.errors.capacity), status: StatusView { event: 0, ..s } }, rep, Ok(None))
    } else if (h == "*ESE"@ || h == "*SRE"@) && !q {
        match mask_of(mask, cmd) {
            Err(e) => (g, rep, Err(e)),
            Ok(m) => (
                set_status(
                    g,
                    if h == "*ESE"@ {
                        StatusView { event_enable: m, ..s }
                    } else {
                        StatusView { service_enable: m, ..s }
                    },
                ),
                rep,
                Ok(None),
            ),
        }
    } else if h == "*ESE"@ && q {
        (g, rep, Ok(Some(int_text(s.event_enable as int))))
    } else if h == "*SRE"@ && q {
        (g, rep, Ok(Some(int_text(s.service_enable as int))))
    } else if h == "*ESR"@ && q {
        (set_status(g, StatusView { event: 0, ..s }), rep, Ok(Some(int_text(s.event as int))))
    } else if h == "*STB"@ && q {
        let pending = !(g.errors.entries.len() == 0 && !g.errors.overflowed);
        (g, rep, Ok(Some(int_text(status_byte_of(s, pending, false) as int))))
    } else if h == "*OPC"@ && !q {
        (set_status(g, StatusView { event: s.event | bit_mask(esr::OPC), ..s }), rep, Ok(None))
    } else if h == "*OPC"@ && q {
        (g, rep, Ok(Some("1"@)))
    } else if h == "*TST"@ && q {
        (g, DeviceReplies { self_test: rep.self_test.drop_first(), ..rep }, Ok(Some(int_text(rep.self_test[0] as int))))
    } else if h == "*WAI"@ && !q {
        (g, rep, Ok(None))
    } else {
        (g, rep, Err(error_with(ErrorCode::UndefinedHeader, h)))
    }
}

/// The commands of the `SYSTem` subsystem that every device shares.
#[derive(Clone, Copy, PartialEq, Eq, Structural)]
pub enum SystemCommand {
    /// `SYSTem:ERRor[:NEXT]?`: the oldest error of the queue.
    Error,
    /// `SYSTem:VERSion?`: the SCPI version the device follows.
    Version,
}

/// The patterns of the `SYSTem` commands, in the order they are tried.
pub open spec fn system_table() -> Seq<(Seq<SegmentSpec>, SystemCommand)> {
    seq![
        (pattern_segments("SYSTem:ERRor[:NEXT]"@), SystemCommand::Error),
        (pattern_segments("SYSTem:VERSion"@), SystemCommand::Version),
    ]
}

/// `None` when the header is not one of the shared `SYSTem` commands, so
/// that the device handles it; otherwise the outcome.
pub open spec fn system_spec(g: Registers, cmd: CommandView) -> Option<(Registers, Result<Option<Seq<char>>, ScpiErrorView>)> {
    match first_match(system_table(), split_nonempty(cmd.header, ':')) {
        None => None,
        Some((which, _)) => Some(
            if !cmd.query {
                (g, Err(error_with(ErrorCode::UndefinedHeader, cmd.header)))
            } else {
                match which {
                    SystemCommand::Error => {
                        let (e, q) = queue_pop(g.errors);
                        (Registers { errors: q, ..g }, Ok(Some(error_text(e))))
                    },
                    SystemCommand::Version => (g, Ok(Some("1999.0"@))),
                }
            },
        ),
    }
}

/// One command: common, shared `SYSTem`, or the device's own.
pub open spec fn dispatch_spec<M: Fn(&Command) -> Result<u8, ScpiError>>(g: Registers, rep: DeviceReplies, cmd: CommandView, mask: M) -> Step {
    if cmd.header.len() > 0 && cmd.header[0] == '*' {
        common_spec(g, rep, cmd, mask)
    } else {
        match system_spec(g, cmd) {
            Some((g2, r)) => (g2, rep, r),
            None => (g, DeviceReplies { execute: rep.execute.drop_first(), ..rep }, rep.execute[0]),
        }
    }
}

/// Runs the commands in order and collects the answers of the queries. The
/// first failing command is recorded and the rest of the message is dropped.
pub open spec fn run_commands<M: Fn(&Command) -> Result<u8, ScpiError>>(g: Registers, rep: DeviceReplies, cmds: Seq<CommandView>, mask: M) -> (Registers, Seq<Seq<char>>)
    decreases cmds.len(),
{
    if cmds.len() == 0 {
        (g, Seq::empty())
    } else {
        let (g1, rep1, res) = dispatch_spec(g, rep, cmds[0], mask);
        match res {
            Err(e) => (note_error(g1, e), Seq::empty()),
            Ok(Some(a)) => {
                let (g2, rest) = run_commands(g1, rep1, cmds.drop_first(), mask);
                (g2, seq![a] + rest)
            },
            Ok(None) => run_commands(g1, rep1, cmds.drop_first(), mask),
        }
    }
}

/// Pieces joined by a separator.
pub open spec fn join_with(parts: Seq<Seq<char>>, sep: char) -> Seq<char>
    decreases parts.len(),
{
    if parts.len() == 0 {
        Seq::empty()
    } else if parts.len() == 1 {
        parts[0]
    } else {
        join_with(parts.drop_last(), sep) + seq![sep] + parts.last()
    }
}

/// A received line, given what the device answers: the registers afterwards
/// and the line to answer, if any.
pub open spec fn handle_spec<M: Fn(&Command) -> Result<u8, ScpiError>>(g: Registers, rep: DeviceReplies, line: Seq<char>, mask: M) -> (Registers, Option<Seq<char>>) {
    match parse_message_spec(line) {
        Err(e) => (note_error(g, e), None),
        Ok(cmds) => {
            let (g2, answers) = run_commands(g, rep, cmds, mask);
            (g2, if answers.len() == 0 { None } else { Some(join_with(answers, ';')) })
        },
    }
}

/// Whether a command is `*IDN?`.
pub open spec fn asks_idn(cmd: CommandView) -> bool {
    cmd.header == "*IDN"@ && cmd.query
}

/// For each `*IDN?` the commands reach, in order, the calls made on the
/// device before it: the point of the message at which the device was asked
/// who it is.
pub open spec fn run_idn_points<M: Fn(&Command) -> Result<u8, ScpiError>>(g: Registers, rep: DeviceReplies, cmds: Seq<CommandView>, mask: M) -> Seq<Seq<DeviceCall>>
    decreases cmds.len(),
{
    if cmds.len() == 0 {
        Seq::empty()
    } else {
        let (g1, rep1, res) = dispatch_spec(g, rep, cmds[0], mask);
        let here: Seq<Seq<DeviceCall>> = if asks_idn(cmds[0]) {
            seq![Seq::empty()]
        } else {
            Seq::empty()
        };
        let made = dispatch_calls(g, rep, cmds[0]);
        match res {
            Err(_) => here,
            Ok(_) => here + run_idn_points(g1, rep1, cmds.drop_first(), mask).map_values(
                |p: Seq<DeviceCall>| made + p,
            ),
        }
    }
}

/// [`run_idn_points`] for a received line.
pub open spec fn handle_idn_points<M: Fn(&Command) -> Result<u8, ScpiError>>(g: Registers, rep: DeviceReplies, line: Seq<char>, mask: M) -> Seq<Seq<DeviceCall>> {
    match parse_message_spec(line) {
        Err(_) => Seq::empty(),
        Ok(cmds) => run_idn_points(g, rep, cmds, mask),
    }
}

/// The calls a command makes on the device that may change it: `reset` for
/// `*RST`, and `execute`, with the answer it gave, for a command that is
/// neither common nor a shared `SYSTem` one.
pub open spec fn dispatch_calls(g: Registers, rep: DeviceReplies, cmd: CommandView) -> Seq<DeviceCall> {
    if cmd.header.len() > 0 && cmd.header[0] == '*' {
        if cmd.header == "*RST"@ && !cmd.query {
            seq![DeviceCall::Reset]
        } else {
            Seq::empty()
        }
    } else {
        match system_spec(g, cmd) {
            Some(_) => Seq::empty(),
            None => seq![DeviceCall::Execute(cmd, rep.execute[0])],
        }
    }
}

/// The calls the commands make on the device, in order, up to and including
/// the first command that fails: nothing after it reaches the device.
pub open spec fn run_calls<M: Fn(&Command) -> Result<u8, ScpiError>>(g: Registers, rep: DeviceReplies, cmds: Seq<CommandView>, mask: M) -> Seq<DeviceCall>
    decreases cmds.len(),
{
    if cmds.len() == 0 {
        Seq::empty()
    } else {
        let (g1, rep1, res) = dispatch_spec(g, rep, cmds[0], mask);
        let made = dispatch_calls(g, rep, cmds[0]);
        match res {
            Err(_) => made,
            Ok(_) => made + run_calls(g1, rep1, cmds.drop_first(), mask),
        }
    }
}

/// The calls a received line makes on the device; none when the line does
/// not parse.
pub open spec fn handle_calls<M: Fn(&Command) -> Result<u8, ScpiError>>(g: Registers, rep: DeviceReplies, line: Seq<char>, mask: M) -> Seq<DeviceCall> {
    match parse_message_spec(line) {
        Err(_) => Seq::empty(),
        Ok(cmds) => run_calls(g, rep, cmds, mask),
    }
}

/// The abstract content of an optional answer.
pub open spec fn opt_view(r: Option<String>) -> Option<Seq<char>> {
    match r {
        Some(s) => Some(s@),
        None => None,
    }
}

/// Records the error in the queue and sets its family's event bit.
fn anotar(status: &mut StatusModel, errors: &mut ErrorQueue, error: ScpiError)
    ensures
        registers(*final(status), *final(errors)) == note_error(registers(*old(status), *old(errors)), error@),
{
    let bit = error.code.esr_bit();
    errors.push(error);
    status.set_event(bit);
}

fn header_is(h: &Vec<char>, lit: &str) -> (r: bool)
    ensures
        r == (h@ == lit@),
{
    let l = chars_of(lit);
    eq_chars(h, &l)
}

/// Answers placed before others leave those others to come next.
proof fn lemma_replies_prefix()
    ensures
        forall|fut: DeviceReplies| #[trigger] concat_replies(no_replies(), fut) == fut,
        forall|s: Seq<char>, fut: DeviceReplies| #![trigger concat_replies(idn_reply(s), fut)]
            concat_replies(idn_reply(s), fut).idn[0] == s && (DeviceReplies {
                idn: concat_replies(idn_reply(s), fut).idn.drop_first(),
                ..concat_replies(idn_reply(s), fut)
            }) == fut,
        forall|t: i64, fut: DeviceReplies| #![trigger concat_replies(self_test_reply(t), fut)]
            concat_replies(self_test_reply(t), fut).self_test[0] == t && (DeviceReplies {
                self_test: concat_replies(self_test_reply(t), fut).self_test.drop_first(),
                ..concat_replies(self_test_reply(t), fut)
            }) == fut,
        forall|x: Result<Option<Seq<char>>, ScpiErrorView>, fut: DeviceReplies| #![trigger concat_replies(execute_reply(x), fut)]
            concat_replies(execute_reply(x), fut).execute[0] == x && (DeviceReplies {
                execute: concat_replies(execute_reply(x), fut).execute.drop_first(),
                ..concat_replies(execute_reply(x), fut)
            }) == fut,
{
    assert forall|fut: DeviceReplies| #[trigger] concat_replies(no_replies(), fut) == fut by {
        assert(concat_replies(no_replies(), fut).idn =~= fut.idn);
        assert(concat_replies(no_replies(), fut).self_test =~= fut.self_test);
        assert(concat_replies(no_replies(), fut).execute =~= fut.execute);
    }
    assert forall|s: Seq<char>, fut: DeviceReplies| #![trigger concat_replies(idn_reply(s), fut)]
        concat_replies(idn_reply(s), fut).idn[0] == s && DeviceReplies {
            idn: concat_replies(idn_reply(s), fut).idn.drop_first(),
            ..concat_replies(idn_reply(s), fut)
        } == fut by {
        let c = concat_replies(idn_reply(s), fut);
        assert(c.idn.drop_first() =~= fut.idn);
        assert(c.self_test =~= fut.self_test);
        assert(c.execute =~= fut.execute);
    }
    assert forall|t: i64, fut: DeviceReplies| #![trigger concat_replies(self_test_reply(t), fut)]
        concat_replies(self_test_reply(t), fut).self_test[0] == t && DeviceReplies {
            self_test: concat_replies(self_test_reply(t), fut).self_test.drop_first(),
            ..concat_replies(self_test_reply(t), fut)
        } == fut by {
        let c = concat_replies(self_test_reply(t), fut);
        assert(c.idn =~= fut.idn);
        assert(c.self_test.drop_first() =~= fut.self_test);
        assert(c.execute =~= fut.execute);
    }
    assert forall|x: Result<Option<Seq<char>>, ScpiErrorView>, fut: DeviceReplies| #![trigger concat_replies(execute_reply(x), fut)]
        concat_replies(execute_reply(x), fut).execute[0] == x && DeviceReplies {
            execute: concat_replies(execute_reply(x), fut).execute.drop_first(),
            ..concat_replies(execute_reply(x), fut)
        } == fut by {
        let c = concat_replies(execute_reply(x), fut);
        assert(c.idn =~= fut.idn);
        assert(c.self_test =~= fut.self_test);
        assert(c.execute.drop_first() =~= fut.execute);
    }
}

/// Concatenating answers is associative.
proof fn lemma_replies_assoc(a: DeviceReplies, b: DeviceReplies, c: DeviceReplies)
    ensures
        concat_replies(concat_replies(a, b), c) == concat_replies(a, concat_replies(b, c)),
{
    assert(concat_replies(concat_replies(a, b), c).idn =~= concat_replies(a, concat_replies(b, c)).idn);
    assert(concat_replies(concat_replies(a, b), c).self_test =~= concat_replies(
        a,
        concat_replies(b, c),
    ).self_test);
    assert(concat_replies(concat_replies(a, b), c).execute =~= concat_replies(
        a,
        concat_replies(b, c),
    ).execute);
}

/// The common commands of IEEE 488.2. Returns the result and the answers the
/// device gave.
fn comando_comun<D: ScpiDevice, M: Fn(&Command) -> Result<u8, ScpiError>>(
    device: &mut D,
    status: &mut StatusModel,
    errors: &mut ErrorQueue,
    cmd: &Command,
    mask: &M,
) -> (r: (Result<Option<String>, ScpiError>, Ghost<DeviceReplies>))
    requires
        mask_reader_ok(*mask),
    ensures
        forall|fut: DeviceReplies| #[trigger]
            common_spec(registers(*old(status), *old(errors)), concat_replies(r.1@, fut), cmd@, *mask)
                == (registers(*final(status), *final(errors)), fut, answer_view(r.0)),
        final(device).records_calls() == old(device).records_calls(),
        old(device).records_calls() ==> final(device).calls() == old(device).calls() + (if cmd@.header
            == "*RST"@ && !cmd@.query {
            seq![DeviceCall::Reset]
        } else {
            Seq::empty()
        }),
        r.1@.idn.len() == if asks_idn(cmd@) { 1int } else { 0int },
        old(device).records_calls() && asks_idn(cmd@) ==> r.1@.idn[0] == old(device).identity(),
{
    proof {
        lemma_replies_prefix();
    }
    let h = chars_of(cmd.header.as_str());
    let q = cmd.query;
    if header_is(&h, "*IDN") && q {
        let s = device.idn();
        return (Ok(Some(s)), Ghost(idn_reply(s@)));
    }
    if header_is(&h, "*RST") && !q {
        device.reset();
        return (Ok(None), Ghost(no_replies()));
    }
    if header_is(&h, "*CLS") && !q {
        errors.clear();
        status.clear();
        return (Ok(None), Ghost(no_replies()));
    }
    let ese = header_is(&h, "*ESE");
    let sre = header_is(&h, "*SRE");
    if (ese || sre) && !q {
        let m = mask(cmd);
        proof {
            lemma_mask_of(*mask, cmd, m);
        }
        match m {
            Err(e) => {
                return (Err(e), Ghost(no_replies()));
            },
            Ok(v) => {
                if ese {
                    status.set_event_enable(v);
                } else {
                    status.set_service_enable(v);
                }
                return (Ok(None), Ghost(no_replies()));
            },
        }
    }
    if ese && q {
        let v = status.event_enable();
        return (Ok(Some(nr1(v as i64))), Ghost(no_replies()));
    }
    if sre && q {
        let v = status.service_enable();
        return (Ok(Some(nr1(v as i64))), Ghost(no_replies()));
    }
    if header_is(&h, "*ESR") && q {
        let v = status.read_event();
        return (Ok(Some(nr1(v as i64))), Ghost(no_replies()));
    }
    if header_is(&h, "*STB") && q {
        let pending = !errors.is_empty();
        let v = status.status_byte(pending, false);
        return (Ok(Some(nr1(v as i64))), Ghost(no_replies()));
    }
    if header_is(&h, "*OPC") {
        if !q {
            // With no overlapped commands every operation ends at once, so
            // `*OPC` can set its bit right away and `*OPC?` answer now.
            status.set_event(esr::OPC);
            return (Ok(None), Ghost(no_replies()));
        } else {
            return (Ok(Some("1".to_owned())), Ghost(no_replies()));
        }
    }
    if header_is(&h, "*TST") && q {
        let t = device.self_test();
        return (Ok(Some(nr1(t))), Ghost(self_test_reply(t)));
    }
    if header_is(&h, "*WAI") && !q {
        return (Ok(None), Ghost(no_replies()));
    }
    (Err(ScpiError::with_detail(ErrorCode::UndefinedHeader, cmd.header.as_str())), Ghost(no_replies()))
}

/// What the mask reader returned is the outcome named by [`mask_of`].
proof fn lemma_mask_of<M: Fn(&Command) -> Result<u8, ScpiError>>(mask: M, c: &Command, r: Result<u8, ScpiError>)
    requires
        mask_reader_ok(mask),
        mask.ensures((c,), r),
    ensures
        mask_of(mask, c@) == mask_result_view(r),
{
    assert(exists|c2: &Command, r2: Result<u8, ScpiError>|
        #![trigger mask.ensures((c2,), r2)]
        c2@ == c@ && mask.ensures((c2,), r2));
    let (c2, r2) = choose|c2: &Command, r2: Result<u8, ScpiError>|
        #![trigger mask.ensures((c2,), r2)]
        c2@ == c@ && mask.ensures((c2,), r2);
    assert(mask.ensures((c2,), r2) && mask.ensures((c,), r));
}

/// The table of the shared `SYSTem` commands.
fn system_commands() -> (t: CommandTable<SystemCommand>)
    ensures
        t.entries_spec() == system_table(),
{
    let t = CommandTable::from_pairs(
        vec![("SYSTem:ERRor[:NEXT]", SystemCommand::Error), ("SYSTem:VERSion", SystemCommand::Version)],
    );
    assert(t.entries_spec() =~= system_table());
    t
}

/// The `SYSTem` commands shared by every device; `None` when the header is
/// not one of them.
fn comando_de_sistema(status: &StatusModel, errors: &mut ErrorQueue, cmd: &Command) -> (r: Option<Result<Option<String>, ScpiError>>)
    ensures
        match system_spec(registers(*status, *old(errors)), cmd@) {
            None => r is None && *final(errors) == *old(errors),
            Some((g2, res)) => r is Some && registers(*status, *final(errors)) == g2 && answer_view(r.unwrap()) == res,
        },
{
    let table = system_commands();
    let found = table.lookup(cmd.header.as_str());
    let which = match found {
        None => {
            return None;
        },
        Some((w, _)) => *w,
    };
    if !cmd.query {
        // Both are queries only; using them as orders is a command error.
        return Some(Err(ScpiError::with_detail(ErrorCode::UndefinedHeader, cmd.header.as_str())));
    }
    match which {
        SystemCommand::Error => {
            let e = errors.pop();
            Some(Ok(Some(e.to_string())))
        },
        // The version of SCPI the device follows.
        SystemCommand::Version => Some(Ok(Some("1999.0".to_owned()))),
    }
}

/// One command of a message: common, shared `SYSTem`, or the device's own.
/// Returns the result and the answers the device gave.
fn despachar<D: ScpiDevice, M: Fn(&Command) -> Result<u8, ScpiError>>(
    device: &mut D,
    status: &mut StatusModel,
    errors: &mut ErrorQueue,
    cmd: &Command,
    mask: &M,
) -> (r: (Result<Option<String>, ScpiError>, Ghost<DeviceReplies>))
    requires
        mask_reader_ok(*mask),
    ensures
        forall|fut: DeviceReplies| #[trigger]
            dispatch_spec(registers(*old(status), *old(errors)), concat_replies(r.1@, fut), cmd@, *mask)
                == (registers(*final(status), *final(errors)), fut, answer_view(r.0)),
        final(device).records_calls() == old(device).records_calls(),
        old(device).records_calls() ==> forall|fut: DeviceReplies|
            final(device).calls() == old(device).calls() + #[trigger] dispatch_calls(
                registers(*old(status), *old(errors)),
                concat_replies(r.1@, fut),
                cmd@,
            ),
        r.1@.idn.len() == if asks_idn(cmd@) { 1int } else { 0int },
        old(device).records_calls() && asks_idn(cmd@) ==> r.1@.idn[0] == old(device).identity(),
{
    proof {
        lemma_replies_prefix();
    }
    if cmd.is_common() {
        return comando_comun(device, status, errors, cmd, mask);
    }
    proof {
        reveal_strlit("*IDN");
        assert(!asks_idn(cmd@));
    }
    match comando_de_sistema(status, errors, cmd) {
        Some(r) => (r, Ghost(no_replies())),
        None => {
            let r = device.execute(cmd);
            (r, Ghost(execute_reply(answer_view(r))))
        },
    }
}

/// Each answer to `*IDN?` is the identity of the device as it stood when it
/// was asked: the `k`-th answer is the identity of the device whose record
/// is that of `first` followed by the calls `points[k]` made before it.
pub open spec fn answered_identities<D: ScpiDevice>(first: D, rep: DeviceReplies, points: Seq<Seq<DeviceCall>>) -> bool {
    &&& points.len() == rep.idn.len()
    &&& forall|k: int| 0 <= k < rep.idn.len() ==> #[trigger] answered_by(first, points[k], rep.idn[k])
}

/// `answer` is the identity of the device whose record is that of `first`
/// followed by `calls`.
pub open spec fn answered_by<D: ScpiDevice>(first: D, calls: Seq<DeviceCall>, answer: Seq<char>) -> bool {
    exists|d: D| #![trigger d.identity()] d.records_calls() && d.calls() == first.calls() + calls && answer == d.identity()
}

/// The answers to `*IDN?` came from the given states of the device.
proof fn lemma_answered<D: ScpiDevice>(first: D, rep: DeviceReplies, points: Seq<Seq<DeviceCall>>, states: Seq<D>)
    requires
        points.len() == rep.idn.len(),
        states.len() == points.len(),
        forall|k: int|
            0 <= k < points.len() ==> (#[trigger] states[k]).records_calls() && states[k].calls() == first.calls()
                + points[k] && rep.idn[k] == states[k].identity(),
    ensures
        answered_identities(first, rep, points),
{
    assert forall|k: int| 0 <= k < rep.idn.len() implies #[trigger] answered_by(first, points[k], rep.idn[k]) by {
        let d = states[k];
        assert(d.records_calls() && d.calls() == first.calls() + points[k] && rep.idn[k] == d.identity());
    }
}

/// Moving the points of the rest of a message past the calls made so far.
proof fn lemma_shift_points(
    pts: Seq<Seq<DeviceCall>>,
    here: Seq<Seq<DeviceCall>>,
    rest: Seq<Seq<DeviceCall>>,
    a: Seq<DeviceCall>,
    b: Seq<DeviceCall>,
)
    ensures
        pts + (here + rest.map_values(|p: Seq<DeviceCall>| b + p)).map_values(|p: Seq<DeviceCall>| a + p) == (pts
            + here.map_values(|p: Seq<DeviceCall>| a + p)) + rest.map_values(|p: Seq<DeviceCall>| (a + b) + p),
{
    let lhs = pts + (here + rest.map_values(|p: Seq<DeviceCall>| b + p)).map_values(|p: Seq<DeviceCall>| a + p);
    let rhs = (pts + here.map_values(|p: Seq<DeviceCall>| a + p)) + rest.map_values(|p: Seq<DeviceCall>| (a + b) + p);
    assert(lhs.len() == rhs.len());
    assert forall|k: int| 0 <= k < lhs.len() implies lhs[k] == rhs[k] by {
        if k >= pts.len() + here.len() {
            let p = rest[k - pts.len() - here.len()];
            assert(a + (b + p) =~= (a + b) + p);
        }
    }
    assert(lhs =~= rhs);
}

/// One command of a message, seen from the `*IDN?` points: if the points of
/// the whole message were those found so far followed by those of the rest,
/// moved past the calls made so far, then after a command that succeeds they
/// are those found so far, with this command's, followed by those of what
/// remains, moved past the calls made up to here.
proof fn lemma_idn_points_step<M: Fn(&Command) -> Result<u8, ScpiError>>(
    g0: Registers,
    used0: DeviceReplies,
    step: DeviceReplies,
    cmds: Seq<CommandView>,
    i: int,
    gi: Registers,
    g1: Registers,
    mask: M,
    pts0: Seq<Seq<DeviceCall>>,
    made0: Seq<DeviceCall>,
    now_made: Seq<DeviceCall>,
)
    requires
        0 <= i < cmds.len(),
        forall|fut: DeviceReplies| #[trigger]
            run_idn_points(g0, concat_replies(used0, fut), cmds, mask) == pts0 + run_idn_points(
                gi,
                fut,
                cmds.skip(i),
                mask,
            ).map_values(|p: Seq<DeviceCall>| made0 + p),
        forall|fut: DeviceReplies|
            #![trigger dispatch_spec(gi, concat_replies(step, fut), cmds[i], mask)]
            dispatch_spec(gi, concat_replies(step, fut), cmds[i], mask).0 == g1 && dispatch_spec(
                gi,
                concat_replies(step, fut),
                cmds[i],
                mask,
            ).1 == fut && dispatch_spec(gi, concat_replies(step, fut), cmds[i], mask).2 is Ok,
        forall|fut: DeviceReplies| #[trigger] dispatch_calls(gi, concat_replies(step, fut), cmds[i]) == now_made,
    ensures
        forall|fut: DeviceReplies| #[trigger]
            run_idn_points(g0, concat_replies(concat_replies(used0, step), fut), cmds, mask) == (pts0 + (if asks_idn(
                cmds[i],
            ) {
                seq![Seq::<DeviceCall>::empty()]
            } else {
                Seq::empty()
            }).map_values(|p: Seq<DeviceCall>| made0 + p)) + run_idn_points(g1, fut, cmds.skip(i + 1), mask).map_values(
                |p: Seq<DeviceCall>| (made0 + now_made) + p,
            ),
{
    let here: Seq<Seq<DeviceCall>> = if asks_idn(cmds[i]) {
        seq![Seq::empty()]
    } else {
        Seq::empty()
    };
    assert(cmds.skip(i)[0] == cmds[i]);
    assert(cmds.skip(i).drop_first() == cmds.skip(i + 1));
    assert forall|fut: DeviceReplies| #[trigger]
        run_idn_points(g0, concat_replies(concat_replies(used0, step), fut), cmds, mask) == (pts0
            + here.map_values(|p: Seq<DeviceCall>| made0 + p)) + run_idn_points(g1, fut, cmds.skip(i + 1), mask).map_values(
            |p: Seq<DeviceCall>| (made0 + now_made) + p,
        ) by {
        lemma_replies_assoc(used0, step, fut);
        let inner = concat_replies(step, fut);
        assert(run_idn_points(g0, concat_replies(used0, inner), cmds, mask) == pts0 + run_idn_points(
            gi,
            inner,
            cmds.skip(i),
            mask,
        ).map_values(|p: Seq<DeviceCall>| made0 + p));
        let rest = run_idn_points(g1, fut, cmds.skip(i + 1), mask);
        let c = cmds.skip(i)[0];
        assert(dispatch_spec(gi, concat_replies(step, fut), cmds[i], mask).2 is Ok);
        assert(dispatch_calls(gi, inner, c) == now_made);
        assert(dispatch_spec(gi, inner, c, mask).2 is Ok);
        assert(run_idn_points(gi, inner, cmds.skip(i), mask) == here + rest.map_values(
            |p: Seq<DeviceCall>| dispatch_calls(gi, inner, c) + p,
        ));
        assert(rest.map_values(|p: Seq<DeviceCall>| dispatch_calls(gi, inner, c) + p) =~= rest.map_values(
            |p: Seq<DeviceCall>| now_made + p,
        ));
        lemma_shift_points(pts0, here, rest, made0, now_made);
    }
}

/// [`lemma_idn_points_step`], with what the device's record says of the
/// calls the command made.
proof fn idn_points_go_on<M: Fn(&Command) -> Result<u8, ScpiError>>(
    g0: Registers,
    used0: DeviceReplies,
    step: DeviceReplies,
    cmds: Seq<CommandView>,
    i: int,
    gi: Registers,
    g1: Registers,
    mask: M,
    pts0: Seq<Seq<DeviceCall>>,
    made0: Seq<DeviceCall>,
    now_made: Seq<DeviceCall>,
    before: Seq<DeviceCall>,
    after: Seq<DeviceCall>,
)
    requires
        0 <= i < cmds.len(),
        forall|fut: DeviceReplies| #[trigger]
            run_idn_points(g0, concat_replies(used0, fut), cmds, mask) == pts0 + run_idn_points(
                gi,
                fut,
                cmds.skip(i),
                mask,
            ).map_values(|p: Seq<DeviceCall>| made0 + p),
        forall|fut: DeviceReplies|
            #![trigger dispatch_spec(gi, concat_replies(step, fut), cmds[i], mask)]
            dispatch_spec(gi, concat_replies(step, fut), cmds[i], mask).0 == g1 && dispatch_spec(
                gi,
                concat_replies(step, fut),
                cmds[i],
                mask,
            ).1 == fut && dispatch_spec(gi, concat_replies(step, fut), cmds[i], mask).2 is Ok,
        forall|fut: DeviceReplies| after == before + #[trigger] dispatch_calls(gi, concat_replies(step, fut), cmds[i]),
        after == before + now_made,
    ensures
        forall|fut: DeviceReplies| #[trigger]
            run_idn_points(g0, concat_replies(concat_replies(used0, step), fut), cmds, mask) == (pts0 + (if asks_idn(
                cmds[i],
            ) {
                seq![Seq::<DeviceCall>::empty()]
            } else {
                Seq::empty()
            }).map_values(|p: Seq<DeviceCall>| made0 + p)) + run_idn_points(g1, fut, cmds.skip(i + 1), mask).map_values(
                |p: Seq<DeviceCall>| (made0 + now_made) + p,
            ),
{
    assert forall|fut: DeviceReplies| #[trigger] dispatch_calls(gi, concat_replies(step, fut), cmds[i]) == now_made by {
        let x = dispatch_calls(gi, concat_replies(step, fut), cmds[i]);
        assert(x =~= after.skip(before.len() as int));
        assert(now_made =~= after.skip(before.len() as int));
    }
    lemma_idn_points_step(g0, used0, step, cmds, i, gi, g1, mask, pts0, made0, now_made);
}

/// The same, for a command that fails: the points of the whole message are
/// those found so far, with this command's.
proof fn lemma_idn_points_last<M: Fn(&Command) -> Result<u8, ScpiError>>(
    g0: Registers,
    used0: DeviceReplies,
    step: DeviceReplies,
    cmds: Seq<CommandView>,
    i: int,
    gi: Registers,
    mask: M,
    pts0: Seq<Seq<DeviceCall>>,
    made0: Seq<DeviceCall>,
)
    requires
        0 <= i < cmds.len(),
        forall|fut: DeviceReplies| #[trigger]
            run_idn_points(g0, concat_replies(used0, fut), cmds, mask) == pts0 + run_idn_points(
                gi,
                fut,
                cmds.skip(i),
                mask,
            ).map_values(|p: Seq<DeviceCall>| made0 + p),
        dispatch_spec(gi, concat_replies(step, no_replies()), cmds[i], mask).2 is Err,
    ensures
        run_idn_points(g0, concat_replies(concat_replies(used0, step), no_replies()), cmds, mask) == pts0 + (if asks_idn(
            cmds[i],
        ) {
            seq![Seq::<DeviceCall>::empty()]
        } else {
            Seq::empty()
        }).map_values(|p: Seq<DeviceCall>| made0 + p),
{
    assert(cmds.skip(i)[0] == cmds[i]);
    lemma_replies_assoc(used0, step, no_replies());
    let inner = concat_replies(step, no_replies());
    assert(run_idn_points(g0, concat_replies(used0, inner), cmds, mask) == pts0 + run_idn_points(
        gi,
        inner,
        cmds.skip(i),
        mask,
    ).map_values(|p: Seq<DeviceCall>| made0 + p));
}

/// Processes a received line and returns the line to answer, if any.
///
/// A message may hold several queries; their answers are joined by
/// semicolons, as the standard requires. With no query, nothing is answered.
/// Errors do not end the conversation: they are recorded in the queue, the
/// event bit of their family is set, and the rest of the message is dropped.
///
/// `status` and `errors` are the device's status registers and error queue;
/// `mask` reads the 8-bit mask parameter of `*ESE` and `*SRE`. Whatever the
/// device answers to what it is asked, the outcome is the one [`handle_spec`]
/// gives for those answers; and a device that records its calls has received
/// exactly those of [`handle_calls`], with those answers: its own commands up
/// to the first failure, and nothing after it.
#[verifier::rlimit(50)]
pub fn handle_message<D: ScpiDevice, M: Fn(&Command) -> Result<u8, ScpiError>>(
    device: &mut D,
    status: &mut StatusModel,
    errors: &mut ErrorQueue,
    line: &str,
    mask: &M,
) -> (r: Option<String>)
    requires
        mask_reader_ok(*mask),
    ensures
        exists|rep: DeviceReplies| #[trigger]
            handle_spec(registers(*old(status), *old(errors)), rep, line@, *mask) == (
                registers(*final(status), *final(errors)),
                opt_view(r),
            ) && (old(device).records_calls() ==> final(device).calls() == old(device).calls() + handle_calls(
                registers(*old(status), *old(errors)),
                rep,
                line@,
                *mask,
            )) && (old(device).records_calls() ==> answered_identities(
                *old(device),
                rep,
                handle_idn_points(registers(*old(status), *old(errors)), rep, line@, *mask),
            )),
        final(device).records_calls() == old(device).records_calls(),
{
    proof {
        lemma_replies_prefix();
    }
    let ghost g0 = registers(*status, *errors);
    let comandos = match parse_message(line) {
        Ok(c) => c,
        Err(e) => {
            anotar(status, errors, e);
            assert(handle_spec(g0, no_replies(), line@, *mask) == (registers(*status, *errors), None::<Seq<char>>));
            assert(old(device).calls() + handle_calls(g0, no_replies(), line@, *mask) =~= old(device).calls());
            assert(answered_identities(*old(device), no_replies(), handle_idn_points(g0, no_replies(), line@, *mask)));
            return None;
        },
    };
    let ghost cmds = comandos@.map_values(|c: Command| c@);
    let ghost mut used = no_replies();
    let ghost mut made: Seq<DeviceCall> = Seq::empty();
    let ghost mut pts: Seq<Seq<DeviceCall>> = Seq::empty();
    let ghost mut states: Seq<D> = Seq::empty();
    let mut answers: Vec<String> = Vec::new();
    let mut i: usize = 0;
    assert(cmds.skip(0) == cmds);
    assert(old(device).calls() + made =~= old(device).calls());
    while i < comandos.len()
        invariant
            i <= comandos.len(),
            mask_reader_ok(*mask),
            cmds == comandos@.map_values(|c: Command| c@),
            parse_message_spec(line@) == Ok::<Seq<CommandView>, ScpiErrorView>(cmds),
            g0 == registers(*old(status), *old(errors)),
            forall|fut: DeviceReplies| #[trigger] run_commands(g0, concat_replies(used, fut), cmds, *mask) == ({
                let (g2, rest) = run_commands(registers(*status, *errors), fut, cmds.skip(i as int), *mask);
                (g2, answers@.map_values(|s: String| s@) + rest)
            }),
            forall|fut: DeviceReplies| #[trigger] concat_replies(no_replies(), fut) == fut,
            device.records_calls() == old(device).records_calls(),
            old(device).records_calls() ==> device.calls() == old(device).calls() + made,
            old(device).records_calls() ==> forall|fut: DeviceReplies| #[trigger]
                run_calls(g0, concat_replies(used, fut), cmds, *mask) == made + run_calls(
                    registers(*status, *errors),
                    fut,
                    cmds.skip(i as int),
                    *mask,
                ),
            old(device).records_calls() ==> pts.len() == used.idn.len() && states.len() == pts.len(),
            old(device).records_calls() ==> forall|k: int|
                0 <= k < pts.len() ==> (#[trigger] states[k]).records_calls() && states[k].calls() == old(
                    device,
                ).calls() + pts[k] && used.idn[k] == states[k].identity(),
            old(device).records_calls() ==> forall|fut: DeviceReplies| #[trigger]
                run_idn_points(g0, concat_replies(used, fut), cmds, *mask) == pts + run_idn_points(
                    registers(*status, *errors),
                    fut,
                    cmds.skip(i as int),
                    *mask,
                ).map_values(|p: Seq<DeviceCall>| made + p),
        decreases comandos.len() - i,
    {
        let cmd = &comandos[i];
        let ghost gi = registers(*status, *errors);
        let ghost before = answers@.map_values(|s: String| s@);
        let ghost calls_before = device.calls();
        let ghost dev_before = *device;
        assert(cmds.skip(i as int)[0] == cmd@);
        assert(cmds.skip(i as int).drop_first() == cmds.skip(i + 1));
        let (resultado, Ghost(step)) = despachar(device, status, errors, cmd, mask);
        let ghost g1 = registers(*status, *errors);
        let ghost used0 = used;
        let ghost made0 = made;
        let ghost now_made = dispatch_calls(gi, concat_replies(step, no_replies()), cmd@);
        let ghost pts0 = pts;
        let ghost here: Seq<Seq<DeviceCall>> = if asks_idn(cmd@) {
            seq![Seq::empty()]
        } else {
            Seq::empty()
        };
        proof {
            used = concat_replies(used0, step);
            made = made0 + now_made;
            pts = pts0 + here.map_values(|p: Seq<DeviceCall>| made0 + p);
            if asks_idn(cmd@) {
                states = states.push(dev_before);
            }
            if old(device).records_calls() {
                assert(device.calls() == calls_before + now_made);
                assert(device.calls() =~= old(device).calls() + made);
                assert(used.idn =~= used0.idn + step.idn);
                assert(pts.len() == used.idn.len());
                assert forall|k: int| 0 <= k < pts.len() implies (#[trigger] states[k]).records_calls()
                    && states[k].calls() == old(device).calls() + pts[k] && used.idn[k] == states[k].identity() by {
                    if k == pts0.len() {
                        assert(pts[k] == made0 + Seq::<DeviceCall>::empty());
                        assert(made0 + Seq::<DeviceCall>::empty() =~= made0);
                    }
                }
            }
        }
        match resultado {
            Ok(Some(a)) => {
                answers.push(a);
                assert(answers@.map_values(|s: String| s@) =~= before.push(a@));
                assert forall|fut: DeviceReplies| #[trigger] run_commands(g0, concat_replies(used, fut), cmds, *mask) == ({
                    let (g2, rest) = run_commands(g1, fut, cmds.skip(i + 1), *mask);
                    (g2, answers@.map_values(|s: String| s@) + rest)
                }) by {
                    lemma_replies_assoc(used0, step, fut);
                    let inner = concat_replies(step, fut);
                    assert(run_commands(g0, concat_replies(used0, inner), cmds, *mask) == ({
                        let (g2, rest) = run_commands(gi, inner, cmds.skip(i as int), *mask);
                        (g2, before + rest)
                    }));
                    assert(dispatch_spec(gi, inner, cmd@, *mask) == (g1, fut, Ok::<Option<Seq<char>>, ScpiErrorView>(Some(a@))));
                    let rest = run_commands(g1, fut, cmds.skip(i + 1), *mask).1;
                    assert(before.push(a@) + rest =~= before + (seq![a@] + rest));
                };
                proof {
                    if old(device).records_calls() {
                        assert forall|fut: DeviceReplies| #[trigger]
                            run_calls(g0, concat_replies(used, fut), cmds, *mask) == made + run_calls(
                                g1,
                                fut,
                                cmds.skip(i + 1),
                                *mask,
                            ) by {
                            lemma_replies_assoc(used0, step, fut);
                            let inner = concat_replies(step, fut);
                            assert(run_calls(g0, concat_replies(used0, inner), cmds, *mask) == made0 + run_calls(
                                gi,
                                inner,
                                cmds.skip(i as int),
                                *mask,
                            ));
                            assert(dispatch_spec(gi, inner, cmd@, *mask) == (g1, fut, Ok::<Option<Seq<char>>, ScpiErrorView>(Some(a@))));
                            assert(dispatch_calls(gi, inner, cmd@) == now_made);
                            let rest = run_calls(g1, fut, cmds.skip(i + 1), *mask);
                            assert(made0 + (now_made + rest) =~= made + rest);
                        };
                        idn_points_go_on(g0, used0, step, cmds, i as int, gi, g1, *mask, pts0, made0, now_made, calls_before, device.calls());
                    }
                }
            },
            Ok(None) => {
                assert forall|fut: DeviceReplies| #[trigger] run_commands(g0, concat_replies(used, fut), cmds, *mask) == ({
                    let (g2, rest) = run_commands(g1, fut, cmds.skip(i + 1), *mask);
                    (g2, answers@.map_values(|s: String| s@) + rest)
                }) by {
                    lemma_replies_assoc(used0, step, fut);
                    let inner = concat_replies(step, fut);
                    assert(run_commands(g0, concat_replies(used0, inner), cmds, *mask) == ({
                        let (g2, rest) = run_commands(gi, inner, cmds.skip(i as int), *mask);
                        (g2, before + rest)
                    }));
                    assert(dispatch_spec(gi, inner, cmd@, *mask) == (g1, fut, Ok::<Option<Seq<char>>, ScpiErrorView>(None)));
                };
                proof {
                    if old(device).records_calls() {
                        assert forall|fut: DeviceReplies| #[trigger]
                            run_calls(g0, concat_replies(used, fut), cmds, *mask) == made + run_calls(
                                g1,
                                fut,
                                cmds.skip(i + 1),
                                *mask,
                            ) by {
                            lemma_replies_assoc(used0, step, fut);
                            let inner = concat_replies(step, fut);
                            assert(run_calls(g0, concat_replies(used0, inner), cmds, *mask) == made0 + run_calls(
                                gi,
                                inner,
                                cmds.skip(i as int),
                                *mask,
                            ));
                            assert(dispatch_spec(gi, inner, cmd@, *mask) == (g1, fut, Ok::<Option<Seq<char>>, ScpiErrorView>(None)));
                            assert(dispatch_calls(gi, inner, cmd@) == now_made);
                            let rest = run_calls(g1, fut, cmds.skip(i + 1), *mask);
                            assert(made0 + (now_made + rest) =~= made + rest);
                        };
                        idn_points_go_on(g0, used0, step, cmds, i as int, gi, g1, *mask, pts0, made0, now_made, calls_before, device.calls());
                    }
                }
            },
            Err(e) => {
                let ghost ev = e@;
                anotar(status, errors, e);
                proof {
                    lemma_replies_assoc(used0, step, no_replies());
                    let inner = concat_replies(step, no_replies());
                    assert(run_commands(g0, concat_replies(used0, inner), cmds, *mask) == ({
                        let (g2, rest) = run_commands(gi, inner, cmds.skip(i as int), *mask);
                        (g2, before + rest)
                    }));
                    assert(dispatch_spec(gi, inner, cmd@, *mask) == (g1, no_replies(), Err::<Option<Seq<char>>, ScpiErrorView>(ev)));
                    assert(before + Seq::<Seq<char>>::empty() =~= before);
                    assert(handle_spec(g0, concat_replies(used, no_replies()), line@, *mask).0 == registers(*status, *errors));
                    if old(device).records_calls() {
                        assert(run_calls(g0, concat_replies(used0, inner), cmds, *mask) == made0 + run_calls(
                            gi,
                            inner,
                            cmds.skip(i as int),
                            *mask,
                        ));
                        assert(run_calls(gi, inner, cmds.skip(i as int), *mask) == now_made);
                        assert(handle_calls(g0, concat_replies(used, no_replies()), line@, *mask) == made);
                        lemma_idn_points_last(g0, used0, step, cmds, i as int, gi, *mask, pts0, made0);
                        assert(cmds[i as int] == cmd@);
                        assert(run_idn_points(g0, concat_replies(used, no_replies()), cmds, *mask) == pts);
                        assert(handle_idn_points(g0, concat_replies(used, no_replies()), line@, *mask) == pts);
                        assert(concat_replies(used, no_replies()).idn =~= used.idn);
                        assert(pts.len() == used.idn.len());
                        lemma_answered(*old(device), concat_replies(used, no_replies()), pts, states);
                    }
                }
                let r = join_answers(&answers);
                assert(handle_spec(g0, concat_replies(used, no_replies()), line@, *mask) == (registers(*status, *errors), opt_view(r)));
                return r;
            },
        }
        i += 1;
    }
    proof {
        assert(cmds.skip(comandos.len() as int) =~= Seq::<CommandView>::empty());
        assert(answers@.map_values(|s: String| s@) + Seq::<Seq<char>>::empty() =~= answers@.map_values(
            |s: String| s@,
        ));
        assert(run_commands(g0, concat_replies(used, no_replies()), cmds, *mask) == (registers(*status, *errors), answers@.map_values(|s: String| s@)));
        if old(device).records_calls() {
            assert(made + Seq::<DeviceCall>::empty() =~= made);
            assert(handle_calls(g0, concat_replies(used, no_replies()), line@, *mask) == made);
            assert(Seq::<Seq<DeviceCall>>::empty().map_values(|p: Seq<DeviceCall>| made + p) =~= Seq::<
                Seq<DeviceCall>,
            >::empty());
            assert(pts + Seq::<Seq<DeviceCall>>::empty() =~= pts);
            assert(handle_idn_points(g0, concat_replies(used, no_replies()), line@, *mask) == pts);
            assert(concat_replies(used, no_replies()).idn =~= used.idn);
            assert(pts.len() == used.idn.len());
            lemma_answered(*old(device), concat_replies(used, no_replies()), pts, states);
        }
    }
    let r = join_answers(&answers);
    assert(handle_spec(g0, concat_replies(used, no_replies()), line@, *mask) == (registers(*status, *errors), opt_view(r)));
    r
}

/// The answers joined by semicolons, or `None` when there are none.
fn join_answers(answers: &Vec<String>) -> (r: Option<String>)
    ensures
        ({
            let a = answers@.map_values(|s: String| s@);
            opt_view(r) == if a.len() == 0 { None } else { Some(join_with(a, ';')) }
        }),
{
    if answers.len() == 0 {
        return None;
    }
    let ghost a = answers@.map_values(|s: String| s@);
    let mut out = String::new();
    let mut i: usize = 0;
    while i < answers.len()
        invariant
            i <= answers.len(),
            a == answers@.map_values(|s: String| s@),
            out@ == join_with(a.take(i as int), ';'),
        decreases answers.len() - i,
    {
        assert(a.take(i + 1).drop_last() == a.take(i as int));
        assert(a.take(i + 1).last() == answers@[i as int]@);
        if i > 0 {
            push_char(&mut out, ';');
        }
        push_str(&mut out, answers[i].as_str());
        assert(i == 0 ==> a.take(i + 1) =~= seq![answers@[0]@]);
        assert(i == 0 ==> out@ =~= answers@[0]@);
        i += 1;
    }
    assert(a.take(answers.len() as int) == a);
    Some(out)
}

/// A command that fails ends the message: the error is recorded, nothing
/// after it runs or reaches the device, and none of the message's queries is
/// answered.
pub proof fn law_failure_drops_the_rest<M: Fn(&Command) -> Result<u8, ScpiError>>(
    g: Registers,
    rep: DeviceReplies,
    cmds: Seq<CommandView>,
    mask: M,
)
    requires
        cmds.len() > 0,
        dispatch_spec(g, rep, cmds[0], mask).2 is Err,
    ensures
        run_commands(g, rep, cmds, mask) == (
            note_error(dispatch_spec(g, rep, cmds[0], mask).0, dispatch_spec(g, rep, cmds[0], mask).2->Err_0),
            Seq::<Seq<char>>::empty(),
        ),
        run_calls(g, rep, cmds, mask) == dispatch_calls(g, rep, cmds[0]),
{
}

/// Recording an error keeps the conversation going: the error waits at the
/// back of the queue (or the overflow is marked), the event bit of its family
/// is set, and the other event bits and every other register stay as they
/// were.
pub proof fn law_error_is_recorded(g: Registers, e: ScpiErrorView)
    ensures
        note_error(g, e).errors == queue_push(g.errors, e),
        note_error(g, e).status.event & bit_mask(esr_bit_of(code_value(e.code))) == bit_mask(
            esr_bit_of(code_value(e.code)),
        ),
        note_error(g, e).status.event & g.status.event == g.status.event,
        note_error(g, e).status.event_enable == g.status.event_enable,
        note_error(g, e).status.service_enable == g.status.service_enable,
{
    crate::status::law_events_accumulate(g.status.event, esr_bit_of(code_value(e.code)));
}

/// A query that succeeds puts its answer first, ahead of the answers of the
/// rest of the message.
pub proof fn law_answers_in_order<M: Fn(&Command) -> Result<u8, ScpiError>>(
    g: Registers,
    rep: DeviceReplies,
    cmds: Seq<CommandView>,
    mask: M,
)
    requires
        cmds.len() > 0,
        dispatch_spec(g, rep, cmds[0], mask).2 matches Ok(Some(_)),
    ensures
        run_commands(g, rep, cmds, mask).1 == seq![dispatch_spec(g, rep, cmds[0], mask).2->Ok_0->Some_0]
            + run_commands(
            dispatch_spec(g, rep, cmds[0], mask).0,
            dispatch_spec(g, rep, cmds[0], mask).1,
            cmds.drop_first(),
            mask,
        ).1,
{
}

/// `*ESE n` writes the event-enable mask and `*SRE n` the service-enable
/// mask, each with the value read, and nothing else: the other mask, the
/// event register and the error queue stay as they were.
pub proof fn law_enable_masks_are_separate<M: Fn(&Command) -> Result<u8, ScpiError>>(
    g: Registers,
    rep: DeviceReplies,
    cmd: CommandView,
    mask: M,
)
    requires
        cmd.header == "*ESE"@ || cmd.header == "*SRE"@,
        !cmd.query,
        mask_of(mask, cmd) is Ok,
    ensures
        dispatch_spec(g, rep, cmd, mask).2 == Ok::<Option<Seq<char>>, ScpiErrorView>(None),
        dispatch_spec(g, rep, cmd, mask).0.errors == g.errors,
        dispatch_spec(g, rep, cmd, mask).0.status.event == g.status.event,
        cmd.header == "*ESE"@ ==> dispatch_spec(g, rep, cmd, mask).0.status.event_enable == mask_of(mask, cmd)->Ok_0
            && dispatch_spec(g, rep, cmd, mask).0.status.service_enable == g.status.service_enable,
        cmd.header == "*SRE"@ ==> dispatch_spec(g, rep, cmd, mask).0.status.service_enable == mask_of(
            mask,
            cmd,
        )->Ok_0 && dispatch_spec(g, rep, cmd, mask).0.status.event_enable == g.status.event_enable,
{
    reveal_strlit("*ESE");
    reveal_strlit("*SRE");
    reveal_strlit("*RST");
    reveal_strlit("*CLS");
    reveal_strlit("*IDN");
    assert(cmd.header.len() > 0 && cmd.header[0] == '*');
    assert(cmd.header != "*RST"@ && cmd.header != "*CLS"@);
    assert("*SRE"@[1] != "*ESE"@[1]);
    assert("*SRE"@ != "*ESE"@);
}

/// What the common commands do to the registers and what they answer:
/// `*CLS` empties the error queue and the event register and keeps both
/// masks; `*ESR?` answers the event register and empties it; `*ESE?` and
/// `*SRE?` answer their mask; `*OPC` sets the operation-complete bit (bit
/// 0) and keeps the others, and `*OPC?` answers `1`; `*IDN?` and `*TST?`
/// answer what the device said; `*RST` and `*WAI` leave the registers and
/// answer nothing. Only `*CLS`, `*ESR?` and `*OPC` touch the registers.
pub proof fn law_common_commands<M: Fn(&Command) -> Result<u8, ScpiError>>(
    g: Registers,
    rep: DeviceReplies,
    cmd: CommandView,
    mask: M,
)
    ensures
        ({
            let (g2, _, r) = dispatch_spec(g, rep, cmd, mask);
            let h = cmd.header;
            let q = cmd.query;
            &&& h == "*CLS"@ && !q ==> r == Ok::<Option<Seq<char>>, ScpiErrorView>(None) && g2.errors.entries.len() == 0
                && !g2.errors.overflowed && g2.errors.capacity == g.errors.capacity && g2.status.event == 0
                && g2.status.event_enable == g.status.event_enable && g2.status.service_enable
                == g.status.service_enable
            &&& h == "*ESR"@ && q ==> r == Ok::<Option<Seq<char>>, ScpiErrorView>(Some(int_text(g.status.event as int)))
                && g2.status.event == 0 && g2.status.event_enable == g.status.event_enable
                && g2.status.service_enable == g.status.service_enable && g2.errors == g.errors
            &&& h == "*ESE"@ && q ==> r == Ok::<Option<Seq<char>>, ScpiErrorView>(
                Some(int_text(g.status.event_enable as int)),
            ) && g2 == g
            &&& h == "*SRE"@ && q ==> r == Ok::<Option<Seq<char>>, ScpiErrorView>(
                Some(int_text(g.status.service_enable as int)),
            ) && g2 == g
            &&& h == "*OPC"@ && !q ==> r == Ok::<Option<Seq<char>>, ScpiErrorView>(None) && g2.status.event
                == g.status.event | 1u8 && g2.status.event_enable == g.status.event_enable
                && g2.status.service_enable == g.status.service_enable && g2.errors == g.errors
            &&& h == "*OPC"@ && q ==> r == Ok::<Option<Seq<char>>, ScpiErrorView>(Some(seq!['1'])) && g2 == g
            &&& h == "*IDN"@ && q ==> r == Ok::<Option<Seq<char>>, ScpiErrorView>(Some(rep.idn[0])) && g2 == g
            &&& h == "*TST"@ && q ==> r == Ok::<Option<Seq<char>>, ScpiErrorView>(
                Some(int_text(rep.self_test[0] as int)),
            ) && g2 == g
            &&& (h == "*RST"@ || h == "*WAI"@) && !q ==> r == Ok::<Option<Seq<char>>, ScpiErrorView>(None) && g2 == g
        }),
{
    reveal_strlit("*IDN");
    reveal_strlit("*RST");
    reveal_strlit("*CLS");
    reveal_strlit("*ESE");
    reveal_strlit("*SRE");
    reveal_strlit("*ESR");
    reveal_strlit("*STB");
    reveal_strlit("*OPC");
    reveal_strlit("*TST");
    reveal_strlit("*WAI");
    assert("*IDN"@[1] != "*RST"@[1]);
    assert("*IDN"@[1] != "*CLS"@[1]);
    assert("*IDN"@[1] != "*ESE"@[1]);
    assert("*IDN"@[1] != "*SRE"@[1]);
    assert("*IDN"@[1] != "*ESR"@[1]);
    assert("*IDN"@[1] != "*STB"@[1]);
    assert("*IDN"@[1] != "*OPC"@[1]);
    assert("*IDN"@[1] != "*TST"@[1]);
    assert("*IDN"@[1] != "*WAI"@[1]);
    assert("*RST"@[1] != "*CLS"@[1]);
    assert("*RST"@[1] != "*ESE"@[1]);
    assert("*RST"@[1] != "*SRE"@[1]);
    assert("*RST"@[1] != "*ESR"@[1]);
    assert("*RST"@[1] != "*STB"@[1]);
    assert("*RST"@[1] != "*OPC"@[1]);
    assert("*RST"@[1] != "*TST"@[1]);
    assert("*RST"@[1] != "*WAI"@[1]);
    assert("*CLS"@[1] != "*ESE"@[1]);
    assert("*CLS"@[1] != "*SRE"@[1]);
    assert("*CLS"@[1] != "*ESR"@[1]);
    assert("*CLS"@[1] != "*STB"@[1]);
    assert("*CLS"@[1] != "*OPC"@[1]);
    assert("*CLS"@[1] != "*TST"@[1]);
    assert("*CLS"@[1] != "*WAI"@[1]);
    assert("*ESE"@[1] != "*SRE"@[1]);
    assert("*ESE"@[3] != "*ESR"@[3]);
    assert("*ESE"@[1] != "*STB"@[1]);
    assert("*ESE"@[1] != "*OPC"@[1]);
    assert("*ESE"@[1] != "*TST"@[1]);
    assert("*ESE"@[1] != "*WAI"@[1]);
    assert("*SRE"@[1] != "*ESR"@[1]);
    assert("*SRE"@[2] != "*STB"@[2]);
    assert("*SRE"@[1] != "*OPC"@[1]);
    assert("*SRE"@[1] != "*TST"@[1]);
    assert("*SRE"@[1] != "*WAI"@[1]);
    assert("*ESR"@[1] != "*STB"@[1]);
    assert("*ESR"@[1] != "*OPC"@[1]);
    assert("*ESR"@[1] != "*TST"@[1]);
    assert("*ESR"@[1] != "*WAI"@[1]);
    assert("*STB"@[1] != "*OPC"@[1]);
    assert("*STB"@[1] != "*TST"@[1]);
    assert("*STB"@[1] != "*WAI"@[1]);
    assert("*OPC"@[1] != "*TST"@[1]);
    assert("*OPC"@[1] != "*WAI"@[1]);
    assert("*TST"@[1] != "*WAI"@[1]);
    reveal_strlit("1");
    assert(bit_mask(esr::OPC) == 1u8) by (bit_vector);
    if cmd.header.len() > 0 && cmd.header[0] == '*' {
    } else {
        assert(cmd.header != "*CLS"@ && cmd.header != "*ESR"@ && cmd.header != "*ESE"@ && cmd.header != "*SRE"@
            && cmd.header != "*OPC"@ && cmd.header != "*IDN"@ && cmd.header != "*TST"@ && cmd.header != "*RST"@
            && cmd.header != "*WAI"@);
    }
    assert("1"@ =~= seq!['1']);
}

} // verus!
