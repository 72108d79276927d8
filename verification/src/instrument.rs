//! What every simulated instrument shares: its identity, its terminals, and
//! the command trees of the generic meter and supply.
use vstd::prelude::*;
use crate::error::{ErrorCode, ScpiError, ScpiErrorView};
use crate::pattern::{pattern_segments, SegmentSpec};
use crate::table::CommandTable;
use crate::text::{chars_of, eq_chars, push_str, string_from, upper, upper_vec};

verus! {

/// The identity answered to `*IDN?`: four comma-separated fields with no
/// spaces around them. Many drivers decide which instrument they face by
/// reading exactly this string.
#[derive(Debug, Clone)]
pub struct Identity {
    pub manufacturer: String,
    pub model: String,
    pub serial: String,
    pub firmware: String,
}

impl Identity {
    pub fn new(manufacturer: &str, model: &str, serial: &str, firmware: &str) -> (r: Self)
        ensures
            r.manufacturer@ == manufacturer@,
            r.model@ == model@,
            r.serial@ == serial@,
            r.firmware@ == firmware@,
    {
        Identity {
            manufacturer: manufacturer.to_owned(),
            model: model.to_owned(),
            serial: serial.to_owned(),
            firmware: firmware.to_owned(),
        }
    }

    /// `manufacturer,model,serial,firmware`.
    pub fn idn(&self) -> (r: String)
        ensures
            r@ == self.manufacturer@ + seq![','] + self.model@ + seq![','] + self.serial@ + seq![',']
                + self.firmware@,
    {
        let mut out = String::new();
        push_str(&mut out, self.manufacturer.as_str());
        push_str(&mut out, ",");
        push_str(&mut out, self.model.as_str());
        push_str(&mut out, ",");
        push_str(&mut out, self.serial.as_str());
        push_str(&mut out, ",");
        push_str(&mut out, self.firmware.as_str());
        proof {
            reveal_strlit(",");
        }
        out
    }
}

/// Identifier of an electrical node of the rack: an index into the world's
/// nodes.
#[derive(Debug, Clone, Copy, PartialEq, Eq, PartialOrd, Ord, Hash, Structural)]
pub struct NodeId(pub u32);

impl NodeId {
    /// The position of the node among the world's nodes.
    pub fn index(self) -> (r: usize)
        ensures
            r == self.0,
    {
        self.0 as usize
    }
}

/// Identifier of an instrument within a rack: its position among the rack's
/// instruments.
#[derive(Debug, Clone, Copy, PartialEq, Eq, PartialOrd, Ord, Hash, Structural)]
pub struct InstrumentId(pub usize);

/// A terminal of an instrument: where it connects to the world. A terminal
/// with no node is left floating, like a loose lead on a real bench.
#[derive(Debug, Clone)]
pub struct Terminal {
    pub name: String,
    pub node: Option<NodeId>,
}

impl Terminal {
    /// A terminal left floating.
    pub fn floating(name: &str) -> (r: Self)
        ensures
            r.name@ == name@,
            r.node is None,
    {
        Terminal { name: name.to_owned(), node: None }
    }

    /// A terminal wired to a node.
    pub fn wired(name: &str, node: NodeId) -> (r: Self)
        ensures
            r.name@ == name@,
            r.node == Some(node),
    {
        Terminal { name: name.to_owned(), node: Some(node) }
    }
}

/// The measurement function of the meter.
#[derive(Debug, Clone, Copy, PartialEq, Eq, Structural)]
pub enum Function {
    VoltageDc,
    VoltageAc,
}

impl Function {
    /// The name `FUNCtion?` answers.
    pub fn name(self) -> (r: &'static str)
        ensures
            r@ == match self {
                Function::VoltageDc => "VOLT:DC"@,
                Function::VoltageAc => "VOLT:AC"@,
            },
    {
        match self {
            Function::VoltageDc => "VOLT:DC",
            Function::VoltageAc => "VOLT:AC",
        }
    }
}

/// `s` without the double quotes at its start.
pub open spec fn trim_start_quotes(s: Seq<char>) -> Seq<char>
    decreases s.len(),
{
    if s.len() > 0 && s[0] == '"' {
        trim_start_quotes(s.drop_first())
    } else {
        s
    }
}

/// `s` without the double quotes at its end.
pub open spec fn trim_end_quotes(s: Seq<char>) -> Seq<char>
    decreases s.len(),
{
    if s.len() > 0 && s.last() == '"' {
        trim_end_quotes(s.drop_last())
    } else {
        s
    }
}

/// The function an argument of `FUNCtion` names, quoted or not, in any case.
pub open spec fn function_named(arg: Seq<char>) -> Result<Function, ScpiErrorView> {
    let up = upper(trim_end_quotes(trim_start_quotes(arg)));
    if up == "VOLT"@ || up == "VOLT:DC"@ || up == "VOLTAGE:DC"@ || up == "VOLTAGE"@ {
        Ok(Function::VoltageDc)
    } else if up == "VOLT:AC"@ || up == "VOLTAGE:AC"@ {
        Ok(Function::VoltageAc)
    } else {
        Err(ScpiErrorView { code: ErrorCode::IllegalParameterValue, detail: Some(up) })
    }
}

impl Function {
    /// The function an argument of `FUNCtion` names; see [`function_named`].
    pub fn from_arg(arg: &str) -> (r: Result<Function, ScpiError>)
        ensures
            match function_named(arg@) {
                Ok(f) => r == Ok::<Function, ScpiError>(f),
                Err(e) => r is Err && r->Err_0@ == e,
            },
    {
        let v = chars_of(arg);
        let mut i: usize = 0;
        assert(v@.skip(0) == v@);
        while i < v.len() && v[i] == '"'
            invariant
                i <= v.len(),
                trim_start_quotes(v@) == trim_start_quotes(v@.skip(i as int)),
            decreases v.len() - i,
        {
            assert(v@.skip(i as int).drop_first() == v@.skip(i + 1));
            i += 1;
        }
        let mut j: usize = v.len();
        let ghost a = v@.skip(i as int);
        assert(a == v@.subrange(i as int, v.len() as int));
        while j > i && v[j - 1] == '"'
            invariant
                i <= j <= v.len(),
                a == v@.subrange(i as int, v.len() as int),
                trim_end_quotes(a) == trim_end_quotes(v@.subrange(i as int, j as int)),
            decreases j,
        {
            assert(v@.subrange(i as int, j as int).drop_last() == v@.subrange(i as int, j - 1));
            j -= 1;
        }
        let t = crate::text::slice_vec(&v, i, j);
        let up = upper_vec(&t);
        if eq_chars(&up, &chars_of("VOLT")) || eq_chars(&up, &chars_of("VOLT:DC")) || eq_chars(
            &up,
            &chars_of("VOLTAGE:DC"),
        ) || eq_chars(&up, &chars_of("VOLTAGE")) {
            return Ok(Function::VoltageDc);
        }
        if eq_chars(&up, &chars_of("VOLT:AC")) || eq_chars(&up, &chars_of("VOLTAGE:AC")) {
            return Ok(Function::VoltageAc);
        }
        let detail = string_from(&up);
        Err(ScpiError::with_detail(ErrorCode::IllegalParameterValue, detail.as_str()))
    }
}

/// The commands of the generic meter (IviDmm class).
#[derive(Debug, Clone, Copy, PartialEq, Eq, Structural)]
pub enum DmmCommand {
    MeasureDc,
    MeasureAc,
    Configure,
    ConfigureQuery,
    Read,
    Initiate,
    Fetch,
    FunctionSet,
    Range,
    RangeAuto,
    Nplc,
}

/// The SCPI tree of the meter, most specific patterns first.
pub open spec fn dmm_tree() -> Seq<(Seq<SegmentSpec>, DmmCommand)> {
    seq![
        (pattern_segments("MEASure[:SCALar]:VOLTage:AC"@), DmmCommand::MeasureAc),
        (pattern_segments("MEASure[:SCALar][:VOLTage][:DC]"@), DmmCommand::MeasureDc),
        (pattern_segments("CONFigure[:SCALar][:VOLTage][:DC]"@), DmmCommand::Configure),
        (pattern_segments("CONFigure"@), DmmCommand::ConfigureQuery),
        (pattern_segments("READ"@), DmmCommand::Read),
        (pattern_segments("INITiate[:IMMediate]"@), DmmCommand::Initiate),
        (pattern_segments("FETCh[:SCALar]"@), DmmCommand::Fetch),
        (pattern_segments("[SENSe:]FUNCtion[:ON]"@), DmmCommand::FunctionSet),
        (pattern_segments("[SENSe:]VOLTage[:DC]:RANGe:AUTO"@), DmmCommand::RangeAuto),
        (pattern_segments("[SENSe:]VOLTage[:DC]:RANGe[:UPPer]"@), DmmCommand::Range),
        (pattern_segments("[SENSe:]VOLTage[:DC]:NPLCycles"@), DmmCommand::Nplc),
    ]
}

/// The command table of the meter.
pub fn dmm_commands() -> (t: CommandTable<DmmCommand>)
    ensures
        t.entries_spec() == dmm_tree(),
{
    let t = CommandTable::from_pairs(
        vec![
            ("MEASure[:SCALar]:VOLTage:AC", DmmCommand::MeasureAc),
            ("MEASure[:SCALar][:VOLTage][:DC]", DmmCommand::MeasureDc),
            ("CONFigure[:SCALar][:VOLTage][:DC]", DmmCommand::Configure),
            ("CONFigure", DmmCommand::ConfigureQuery),
            ("READ", DmmCommand::Read),
            ("INITiate[:IMMediate]", DmmCommand::Initiate),
            ("FETCh[:SCALar]", DmmCommand::Fetch),
            ("[SENSe:]FUNCtion[:ON]", DmmCommand::FunctionSet),
            ("[SENSe:]VOLTage[:DC]:RANGe:AUTO", DmmCommand::RangeAuto),
            ("[SENSe:]VOLTage[:DC]:RANGe[:UPPer]", DmmCommand::Range),
            ("[SENSe:]VOLTage[:DC]:NPLCycles", DmmCommand::Nplc),
        ],
    );
    assert(t.entries_spec() =~= dmm_tree());
    t
}

/// The commands of the generic DC supply.
#[derive(Debug, Clone, Copy, PartialEq, Eq, Structural)]
pub enum PsuCommand {
    Voltage,
    Current,
    Output,
    MeasureVoltage,
    MeasureCurrent,
}

/// The SCPI tree of the supply.
pub open spec fn psu_tree() -> Seq<(Seq<SegmentSpec>, PsuCommand)> {
    seq![
        (pattern_segments("MEASure[:SCALar]:VOLTage[:DC]"@), PsuCommand::MeasureVoltage),
        (pattern_segments("MEASure[:SCALar]:CURRent[:DC]"@), PsuCommand::MeasureCurrent),
        (pattern_segments("[SOURce:]VOLTage[:LEVel][:IMMediate][:AMPLitude]"@), PsuCommand::Voltage),
        (pattern_segments("[SOURce:]CURRent[:LEVel][:IMMediate][:AMPLitude]"@), PsuCommand::Current),
        (pattern_segments("OUTPut[:STATe]"@), PsuCommand::Output),
    ]
}

/// The command table of the supply.
pub fn psu_commands() -> (t: CommandTable<PsuCommand>)
    ensures
        t.entries_spec() == psu_tree(),
{
    let t = CommandTable::from_pairs(
        vec![
            ("MEASure[:SCALar]:VOLTage[:DC]", PsuCommand::MeasureVoltage),
            ("MEASure[:SCALar]:CURRent[:DC]", PsuCommand::MeasureCurrent),
            ("[SOURce:]VOLTage[:LEVel][:IMMediate][:AMPLitude]", PsuCommand::Voltage),
            ("[SOURce:]CURRent[:LEVel][:IMMediate][:AMPLitude]", PsuCommand::Current),
            ("OUTPut[:STATe]", PsuCommand::Output),
        ],
    );
    assert(t.entries_spec() =~= psu_tree());
    t
}

/// The 64-bit mixer of deterministic noise (splitmix64): noise is a pure
/// function of seed and instant, so the order in which instants are asked
/// for does not change it.
pub open spec fn mix_spec(x: u64) -> u64 {
    let z1 = x.wrapping_add(0x9E37_79B9_7F4A_7C15u64);
    let z2 = (z1 ^ (z1 >> 30u64)).wrapping_mul(0xBF58_476D_1CE4_E5B9u64);
    let z3 = (z2 ^ (z2 >> 27u64)).wrapping_mul(0x94D0_49BB_1331_11EBu64);
    z3 ^ (z3 >> 31u64)
}

pub fn mezclar(x: u64) -> (r: u64)
    ensures
        r == mix_spec(x),
{
    let mut z = x.wrapping_add(0x9E37_79B9_7F4A_7C15u64);
    z = (z ^ (z >> 30u64)).wrapping_mul(0xBF58_476D_1CE4_E5B9u64);
    z = (z ^ (z >> 27u64)).wrapping_mul(0x94D0_49BB_1331_11EBu64);
    z ^ (z >> 31u64)
}

} // verus!
