//! Decoder of control functions (ECMA-48) in the output of the program running
//! in the terminal, one character at a time.

use vstd::prelude::*;

use crate::sixel;
use crate::stream::CharStream;

verus! {

/// A control function, or a graphic character to display.
#[derive(Debug)]
#[allow(clippy::upper_case_acronyms)]
pub enum Function {
    GraphicChar(char),
    Unsupported,
    Invalid,
    NUL,
    SOH,
    STX,
    EOT,
    ENQ,
    ACK,
    BEL,
    BS,
    HT,
    LF,
    VT,
    FF,
    CR,
    SO,
    SI,
    DLE,
    DC1,
    DC2,
    DC3,
    DC4,
    NAK,
    SYN,
    ETB,
    CAN,
    EM,
    SUB,
    ESC,
    IS4,
    IS3,
    IS2,
    IS1,
    BPH,
    NBH,
    NEL,
    SSA,
    ESA,
    HTS,
    HTJ,
    VTS,
    PLD,
    PLU,
    RI,
    SS2,
    SS3,
    DCS,
    PU1,
    PU2,
    STS,
    CCH,
    MW,
    SPA,
    EPA,
    SOS,
    SCI,
    ST,
    OSC,
    PM,
    APC,
    ICH(u16),
    CUU(u16),
    CUD(u16),
    CUF(u16),
    CUB(u16),
    CNL,
    CPL,
    CHA(u16),
    CUP(u16, u16),
    DECSC,
    DECRC,
    CHT,
    ED(u16),
    EL(u16),
    IL(u16),
    DL(u16),
    EF,
    EA,
    DCH(u16),
    SSE,
    CPR,
    SU,
    SD,
    NP,
    PP,
    CTC,
    ECH(u16),
    CVT,
    CBT,
    SRS,
    PTX,
    SDS,
    SIMD,
    HPA,
    HPR,
    REP,
    DA,
    VPA(u16),
    VPR,
    HVP(u16, u16),
    TBC,
    SM(u8, u16),
    MC,
    HPB,
    VPB,
    RM(u8, u16),
    SGR(Vec<u16>),
    DSR(u16),
    DAQ,
    SL,
    SR,
    GSM,
    GSS,
    FNT,
    TSS,
    JFY,
    SPI,
    QUAD,
    SSU,
    PFS,
    SHS,
    SVS,
    IGS,
    IDCS,
    PPA,
    PPR,
    PPB,
    SPD,
    DTA,
    SHL,
    SLL,
    FNK,
    SPQR,
    SEF,
    PEC,
    SSW,
    SACS,
    SAPV,
    STAB,
    GCC,
    TATE,
    TALE,
    TAC,
    TCC,
    TSR,
    SCO,
    SRCS,
    SCS,
    SLS,
    SCP,
    SixelImage(sixel::Image),
    SelectCursorStyle(u16),
}

/// What the decoder is in the middle of.
#[derive(Debug, Clone, Copy, PartialEq, Eq, Structural)]
pub enum State {
    Normal,
    EscapeSeq,
    ControlSeq,
    ApplicationProgramCommand,
    DeviceControlString,
    OperatingSystemCommand,
    PrivacyMessage,
    StartOfString,
}

/// The decoder as a value: its state, the parameters, intermediate byte and
/// private marker of a control sequence being read, the control string being
/// read, and the sixel color registers.
pub struct ParserView {
    pub state: State,
    pub params: Seq<u16>,
    pub intermediate: u8,
    pub private: Option<u8>,
    pub string: Seq<char>,
    pub colors: Seq<Color>,
}

use crate::sixel::Color;

/// What feeding one character yields.
pub enum Out {
    /// Nothing yet.
    Nothing,
    /// A function without a buffer.
    Func(Function),
    /// Select Graphic Rendition with these parameters.
    Sgr(Seq<u16>),
    /// A sixel image decoded from these characters.
    Sixel(Seq<char>),
}

/// `v` clamped to the range of `u16`.
pub open spec fn clamp_u16(v: int) -> u16 {
    if v > u16::MAX {
        u16::MAX
    } else {
        v as u16
    }
}

/// The private marker of a control sequence, 0 when there is none.
pub open spec fn private_or_zero(p: Option<u8>) -> u8 {
    match p {
        Some(b) => b,
        None => 0,
    }
}

/// A character outside a control function (C0 controls and graphic characters).
pub open spec fn normal_step(ch: char) -> (State, Out) {
    match ch {
        '\x00' => (State::Normal, Out::Nothing),
        '\x01' => (State::Normal, Out::Nothing),
        '\x02' => (State::Normal, Out::Nothing),
        '\x03' => (State::Normal, Out::Nothing),
        '\x04' => (State::Normal, Out::Nothing),
        '\x05' => (State::Normal, Out::Nothing),
        '\x06' => (State::Normal, Out::Nothing),
        '\x07' => (State::Normal, Out::Func(Function::BEL)),
        '\x08' => (State::Normal, Out::Func(Function::BS)),
        '\x09' => (State::Normal, Out::Func(Function::HT)),
        '\x0A' => (State::Normal, Out::Func(Function::LF)),
        '\x0B' => (State::Normal, Out::Func(Function::VT)),
        '\x0C' => (State::Normal, Out::Func(Function::FF)),
        '\x0D' => (State::Normal, Out::Func(Function::CR)),
        '\x0E' => (State::Normal, Out::Func(Function::SO)),
        '\x0F' => (State::Normal, Out::Func(Function::SI)),
        '\x10' => (State::Normal, Out::Nothing),
        '\x11' => (State::Normal, Out::Func(Function::DC1)),
        '\x12' => (State::Normal, Out::Nothing),
        '\x13' => (State::Normal, Out::Func(Function::DC3)),
        '\x14' => (State::Normal, Out::Nothing),
        '\x15' => (State::Normal, Out::Nothing),
        '\x16' => (State::Normal, Out::Nothing),
        '\x17' => (State::Normal, Out::Nothing),
        '\x18' => (State::Normal, Out::Func(Function::CAN)),
        '\x19' => (State::Normal, Out::Nothing),
        '\x1A' => (State::Normal, Out::Func(Function::SUB)),
        '\x1B' => (State::EscapeSeq, Out::Nothing),
        '\x7F' => (State::Normal, Out::Nothing),
        _ => (State::Normal, Out::Func(Function::GraphicChar(ch))),
    }
}

/// A character after ESC (C1 controls in their 7-bit form).
pub open spec fn escape_step(ch: char) -> (State, Out) {
    match ch {
        '\x1B' => (State::EscapeSeq, Out::Nothing),
        '\x37' => (State::EscapeSeq, Out::Func(Function::DECSC)),
        '\x38' => (State::EscapeSeq, Out::Func(Function::DECRC)),
        '\x40' => (State::EscapeSeq, Out::Func(Function::Unsupported)),
        '\x41' => (State::EscapeSeq, Out::Func(Function::Unsupported)),
        '\x42' => (State::EscapeSeq, Out::Func(Function::BPH)),
        '\x43' => (State::EscapeSeq, Out::Func(Function::NBH)),
        '\x44' => (State::EscapeSeq, Out::Func(Function::Unsupported)),
        '\x45' => (State::EscapeSeq, Out::Func(Function::NEL)),
        '\x46' => (State::EscapeSeq, Out::Func(Function::SSA)),
        '\x47' => (State::EscapeSeq, Out::Func(Function::ESA)),
        '\x48' => (State::EscapeSeq, Out::Func(Function::HTS)),
        '\x49' => (State::EscapeSeq, Out::Func(Function::HTJ)),
        '\x4A' => (State::EscapeSeq, Out::Func(Function::VTS)),
        '\x4B' => (State::EscapeSeq, Out::Func(Function::PLD)),
        '\x4C' => (State::EscapeSeq, Out::Func(Function::PLU)),
        '\x4D' => (State::EscapeSeq, Out::Func(Function::RI)),
        '\x4E' => (State::EscapeSeq, Out::Func(Function::SS2)),
        '\x4F' => (State::EscapeSeq, Out::Func(Function::SS3)),
        '\x50' => (State::DeviceControlString, Out::Nothing),
        '\x51' => (State::EscapeSeq, Out::Func(Function::PU1)),
        '\x52' => (State::EscapeSeq, Out::Func(Function::PU2)),
        '\x53' => (State::EscapeSeq, Out::Func(Function::STS)),
        '\x54' => (State::EscapeSeq, Out::Func(Function::CCH)),
        '\x55' => (State::EscapeSeq, Out::Func(Function::MW)),
        '\x56' => (State::EscapeSeq, Out::Func(Function::SPA)),
        '\x57' => (State::EscapeSeq, Out::Func(Function::EPA)),
        '\x58' => (State::StartOfString, Out::Nothing),
        '\x59' => (State::EscapeSeq, Out::Func(Function::Unsupported)),
        '\x5A' => (State::EscapeSeq, Out::Func(Function::SCI)),
        '\x5B' => (State::ControlSeq, Out::Nothing),
        '\x5C' => (State::EscapeSeq, Out::Func(Function::ST)),
        '\x5D' => (State::OperatingSystemCommand, Out::Nothing),
        '\x5E' => (State::PrivacyMessage, Out::Nothing),
        '\x5F' => (State::ApplicationProgramCommand, Out::Nothing),
        '\x7F' => (State::EscapeSeq, Out::Func(Function::Unsupported)),
        '\x60'..='\x7F' => (State::EscapeSeq, Out::Func(Function::Unsupported)),
        _ => (State::EscapeSeq, Out::Func(Function::Invalid)),
    }
}

/// The function a control sequence stands for, from its intermediate byte,
/// final byte, parameters and private marker.
pub open spec fn final_step(i: u8, ch: char, ps: Seq<u16>, private: Option<u8>) -> Out {
    if i == 0 {
        match ch {
            '\x40' => if ps.len() == 1 { Out::Func(Function::ICH(ps[0])) } else { Out::Func(Function::Invalid) },
            '\x41' => if ps.len() == 1 { Out::Func(Function::CUU(ps[0])) } else { Out::Func(Function::Invalid) },
            '\x42' => if ps.len() == 1 { Out::Func(Function::CUD(ps[0])) } else { Out::Func(Function::Invalid) },
            '\x43' => if ps.len() == 1 { Out::Func(Function::CUF(ps[0])) } else { Out::Func(Function::Invalid) },
            '\x44' => if ps.len() == 1 { Out::Func(Function::CUB(ps[0])) } else { Out::Func(Function::Invalid) },
            '\x45' => Out::Func(Function::CNL),
            '\x46' => Out::Func(Function::CPL),
            '\x47' => if ps.len() == 1 { Out::Func(Function::CHA(ps[0])) } else { Out::Func(Function::Invalid) },
            '\x48' => if ps.len() == 2 { Out::Func(Function::CUP(ps[0], ps[1])) } else if ps.len() == 1 { Out::Func(Function::CUP(ps[0], 1)) } else { Out::Func(Function::Invalid) },
            '\x49' => Out::Func(Function::CHT),
            '\x4A' => if ps.len() == 1 && ps[0] <= 2 { Out::Func(Function::ED(ps[0])) } else { Out::Func(Function::Invalid) },
            '\x4B' => if ps.len() == 1 && ps[0] <= 2 { Out::Func(Function::EL(ps[0])) } else { Out::Func(Function::Invalid) },
            '\x4C' => if ps.len() == 1 { Out::Func(Function::IL(ps[0])) } else { Out::Func(Function::Invalid) },
            '\x4D' => if ps.len() == 1 { Out::Func(Function::DL(ps[0])) } else { Out::Func(Function::Invalid) },
            '\x4E' => Out::Func(Function::EF),
            '\x4F' => Out::Func(Function::EA),
            '\x50' => if ps.len() == 1 { Out::Func(Function::DCH(ps[0])) } else { Out::Func(Function::Invalid) },
            '\x51' => Out::Func(Function::SSE),
            '\x52' => Out::Func(Function::CPR),
            '\x53' => Out::Func(Function::SU),
            '\x54' => Out::Func(Function::SD),
            '\x55' => Out::Func(Function::NP),
            '\x56' => Out::Func(Function::PP),
            '\x57' => Out::Func(Function::CTC),
            '\x58' => if ps.len() == 1 { Out::Func(Function::ECH(ps[0])) } else { Out::Func(Function::Invalid) },
            '\x59' => Out::Func(Function::CVT),
            '\x5A' => Out::Func(Function::CBT),
            '\x5B' => Out::Func(Function::SRS),
            '\x5C' => Out::Func(Function::PTX),
            '\x5D' => Out::Func(Function::SDS),
            '\x5E' => Out::Func(Function::SIMD),
            '\x5F' => Out::Func(Function::Unsupported),
            '\x60' => Out::Func(Function::HPA),
            '\x61' => Out::Func(Function::HPR),
            '\x62' => Out::Func(Function::REP),
            '\x63' => Out::Func(Function::DA),
            '\x64' => if ps.len() == 1 { Out::Func(Function::VPA(ps[0])) } else { Out::Func(Function::Invalid) },
            '\x65' => Out::Func(Function::VPR),
            '\x66' => if ps.len() == 2 { Out::Func(Function::HVP(ps[0], ps[1])) } else if ps.len() == 1 { Out::Func(Function::HVP(ps[0], 1)) } else { Out::Func(Function::Invalid) },
            '\x67' => Out::Func(Function::TBC),
            '\x68' => if ps.len() == 1 { Out::Func(Function::SM(private_or_zero(private), ps[0])) } else { Out::Func(Function::Invalid) },
            '\x69' => Out::Func(Function::MC),
            '\x6A' => Out::Func(Function::HPB),
            '\x6B' => Out::Func(Function::VPB),
            '\x6C' => if ps.len() == 1 { Out::Func(Function::RM(private_or_zero(private), ps[0])) } else { Out::Func(Function::Invalid) },
            '\x6D' => Out::Sgr(ps),
            '\x6E' => if ps.len() == 1 && (ps[0] == 5 || ps[0] == 6) { Out::Func(Function::DSR(ps[0])) } else { Out::Func(Function::Invalid) },
            '\x6F' => Out::Func(Function::DAQ),
            '\x70'..='\x7E' => Out::Func(Function::Unsupported),
            _ => Out::Func(Function::Invalid),
        }
    } else if i == 0x20 {
        match ch {
            '\x40' => Out::Func(Function::SL),
            '\x41' => Out::Func(Function::SR),
            '\x42' => Out::Func(Function::GSM),
            '\x43' => Out::Func(Function::GSS),
            '\x44' => Out::Func(Function::FNT),
            '\x45' => Out::Func(Function::TSS),
            '\x46' => Out::Func(Function::JFY),
            '\x47' => Out::Func(Function::SPI),
            '\x48' => Out::Func(Function::QUAD),
            '\x49' => Out::Func(Function::SSU),
            '\x4A' => Out::Func(Function::PFS),
            '\x4B' => Out::Func(Function::SHS),
            '\x4C' => Out::Func(Function::SVS),
            '\x4D' => Out::Func(Function::IGS),
            '\x4E' => Out::Func(Function::Unsupported),
            '\x4F' => Out::Func(Function::IDCS),
            '\x50' => Out::Func(Function::PPA),
            '\x51' => Out::Func(Function::PPR),
            '\x52' => Out::Func(Function::PPB),
            '\x53' => Out::Func(Function::SPD),
            '\x54' => Out::Func(Function::DTA),
            '\x55' => Out::Func(Function::SHL),
            '\x56' => Out::Func(Function::SLL),
            '\x57' => Out::Func(Function::FNK),
            '\x58' => Out::Func(Function::SPQR),
            '\x59' => Out::Func(Function::SEF),
            '\x5A' => Out::Func(Function::PEC),
            '\x5B' => Out::Func(Function::SSW),
            '\x5C' => Out::Func(Function::SACS),
            '\x5D' => Out::Func(Function::SAPV),
            '\x5E' => Out::Func(Function::STAB),
            '\x5F' => Out::Func(Function::GCC),
            '\x60' => Out::Func(Function::TATE),
            '\x61' => Out::Func(Function::TALE),
            '\x62' => Out::Func(Function::TAC),
            '\x63' => Out::Func(Function::TCC),
            '\x64' => Out::Func(Function::TSR),
            '\x65' => Out::Func(Function::SCO),
            '\x66' => Out::Func(Function::SRCS),
            '\x67' => Out::Func(Function::SCS),
            '\x68' => Out::Func(Function::SLS),
            '\x69' => Out::Func(Function::Unsupported),
            '\x6A' => Out::Func(Function::Unsupported),
            '\x6B' => Out::Func(Function::SCP),
            '\x6C' => Out::Func(Function::Unsupported),
            '\x6D' => Out::Func(Function::Unsupported),
            '\x6E' => Out::Func(Function::Unsupported),
            '\x6F' => Out::Func(Function::Unsupported),
            '\x71' => if ps.len() == 1 { Out::Func(Function::SelectCursorStyle(ps[0])) } else { Out::Func(Function::Unsupported) },
            '\x70'..='\x7E' => Out::Func(Function::Unsupported),
            _ => Out::Func(Function::Invalid),
        }
    } else if 0x21 <= i <= 0x2F {
        Out::Func(Function::Unsupported)
    } else {
        Out::Func(Function::Invalid)
    }
}

/// The decoder with an emptied buffer: one parameter (0), no intermediate
/// byte, no private marker, no string.
pub open spec fn cleared(v: ParserView) -> ParserView {
    ParserView { params: seq![0u16], intermediate: 0, private: None, string: seq![], ..v }
}

/// A character inside a control sequence.
pub open spec fn control_seq_step(v: ParserView, ch: char) -> (ParserView, Out) {
    if ch == '\x1B' {
        (ParserView { state: State::EscapeSeq, ..cleared(v) }, Out::Nothing)
    } else if '0' <= ch <= '9' {
        let last = v.params.last();
        let n = clamp_u16(clamp_u16(last * 10) + (ch as int - '0' as int));
        (ParserView { params: v.params.update(v.params.len() - 1, n), ..v }, Out::Nothing)
    } else if ch == ':' {
        (v, Out::Func(Function::Unsupported))
    } else if ch == ';' {
        (ParserView { params: v.params.push(0), ..v }, Out::Nothing)
    } else if ch == '<' || ch == '=' || ch == '>' || ch == '?' {
        (ParserView { private: Some(ch as u8), ..v }, Out::Nothing)
    } else if '\x20' <= ch <= '\x2F' {
        (ParserView { intermediate: ch as u8, ..v }, Out::Nothing)
    } else if '\x40' <= ch <= '\x7E' {
        (v, final_step(v.intermediate, ch, v.params, v.private))
    } else {
        (v, Out::Func(Function::Invalid))
    }
}

/// The string ends here: its last character is ESC and `ch` is `\\`.
pub open spec fn terminates(string: Seq<char>, ch: char) -> bool {
    string.len() > 0 && string.last() == '\x1B' && ch == '\x5C'
}

/// A character inside a control string (APC, DCS, OSC or PM).  A device
/// control string starting with `q` is decoded as sixel graphics.
pub open spec fn control_string_step(v: ParserView, ch: char) -> (ParserView, Out) {
    if terminates(v.string, ch) {
        let s = v.string.drop_last();
        if v.state == State::DeviceControlString && s.len() > 0 && s[0] == 'q' {
            let chars = s.subrange(1, s.len() as int);
            let fin = sixel::run(chars, 0, sixel::initial_state(v.colors)).0;
            (ParserView { string: s, colors: fin.colors, ..v }, Out::Sixel(chars))
        } else {
            (ParserView { string: s, ..v }, Out::Func(Function::Unsupported))
        }
    } else if ('\x08' <= ch <= '\x0D') || ch == '\x1B' || ('\x20' <= ch <= '\x7E') {
        (ParserView { string: v.string.push(ch), ..v }, Out::Nothing)
    } else {
        (v, Out::Func(Function::Invalid))
    }
}

/// A character inside a character string (SOS).
pub open spec fn character_string_step(v: ParserView, ch: char) -> (ParserView, Out) {
    if terminates(v.string, ch) {
        (ParserView { string: v.string.drop_last(), ..v }, Out::Func(Function::Unsupported))
    } else {
        (ParserView { string: v.string.push(ch), ..v }, Out::Nothing)
    }
}

/// Feeding `ch` to the decoder `v`: the next decoder and what it yields.  The
/// decoder returns to the normal state whenever it yields something.
pub open spec fn step(v: ParserView, ch: char) -> (ParserView, Out) {
    let (v1, out) = match v.state {
        State::Normal => {
            let (st, o) = normal_step(ch);
            (ParserView { state: st, ..cleared(v) }, o)
        },
        State::EscapeSeq => {
            let (st, o) = escape_step(ch);
            (ParserView { state: st, ..v }, o)
        },
        State::ControlSeq => control_seq_step(v, ch),
        State::StartOfString => character_string_step(v, ch),
        _ => control_string_step(v, ch),
    };
    if out is Nothing {
        (v1, out)
    } else {
        (ParserView { state: State::Normal, ..v1 }, out)
    }
}

/// Text passes through: in the ground state a character that is neither a
/// C0 control nor DEL is yielded as a graphic character, and the parser
/// stays in the ground state.
pub proof fn lemma_text_passes_through(v: ParserView, ch: char)
    requires
        v.state == State::Normal,
        ch as u32 >= 0x20,
        ch != '\x7F',
    ensures
        step(v, ch).1 == Out::Func(Function::GraphicChar(ch)),
        step(v, ch).0.state == State::Normal,
{
}

/// Feeding the characters `s` one by one to `v`: the parser after them and
/// what each one yields.
pub open spec fn feed_all(v: ParserView, s: Seq<char>) -> (ParserView, Seq<Out>)
    decreases s.len(),
{
    if s.len() == 0 {
        (v, seq![])
    } else {
        let (v1, o) = step(v, s[0]);
        let (v2, os) = feed_all(v1, s.drop_first());
        (v2, seq![o] + os)
    }
}

/// The decimal digits of `n`, most significant first.
pub open spec fn decimal_chars(n: nat) -> Seq<char>
    decreases n,
{
    if n < 10 {
        seq![(0x30 + n) as char]
    } else {
        decimal_chars(n / 10).push((0x30 + n % 10) as char)
    }
}

/// Feeding `a` then `b` is feeding `a + b`.
proof fn lemma_feed_all_concat(v: ParserView, a: Seq<char>, b: Seq<char>)
    ensures
        feed_all(v, a + b).0 == feed_all(feed_all(v, a).0, b).0,
        feed_all(v, a + b).1 == feed_all(v, a).1 + feed_all(feed_all(v, a).0, b).1,
    decreases a.len(),
{
    if a.len() == 0 {
        assert(a + b =~= b);
    } else {
        assert((a + b).drop_first() =~= a.drop_first() + b);
        assert((a + b)[0] == a[0]);
        let (v1, o) = step(v, a[0]);
        lemma_feed_all_concat(v1, a.drop_first(), b);
        assert(seq![o] + (feed_all(v1, a.drop_first()).1 + feed_all(feed_all(v1, a.drop_first()).0, b).1)
            =~= (seq![o] + feed_all(v1, a.drop_first()).1) + feed_all(feed_all(v1, a.drop_first()).0, b).1);
    }
}

/// Inside a control sequence whose last parameter is 0 so far, the digits
/// of `n` make `n` that parameter and yield nothing.
proof fn lemma_digits_make_parameter(v: ParserView, n: nat)
    requires
        v.state == State::ControlSeq,
        v.params.len() >= 1,
        v.params.last() == 0,
        n <= u16::MAX,
    ensures
        feed_all(v, decimal_chars(n)).0 == (ParserView { params: v.params.update(v.params.len() - 1, n as u16), ..v }),
        forall|i: int| 0 <= i < decimal_chars(n).len() ==> (#[trigger] feed_all(v, decimal_chars(n)).1[i]) is Nothing,
        feed_all(v, decimal_chars(n)).1.len() == decimal_chars(n).len(),
    decreases n,
{
    if n < 10 {
        reveal_with_fuel(feed_all, 2);
        let ch = (0x30 + n) as char;
        assert(decimal_chars(n) == seq![ch]);
        assert(seq![ch].drop_first() =~= Seq::<char>::empty());
    } else {
        let m = n / 10;
        let d = n % 10;
        let ch = (0x30 + d) as char;
        lemma_digits_make_parameter(v, m);
        lemma_feed_all_concat(v, decimal_chars(m), seq![ch]);
        assert(decimal_chars(m) + seq![ch] =~= decimal_chars(n));
        let w = feed_all(v, decimal_chars(m)).0;
        reveal_with_fuel(feed_all, 2);
        assert(seq![ch].drop_first() =~= Seq::<char>::empty());
        assert(w.params.last() == m as u16);
        assert(m * 10 + d == n);
        assert(w.params.update(w.params.len() - 1, n as u16) =~= v.params.update(v.params.len() - 1, n as u16));
        let os = feed_all(v, decimal_chars(n)).1;
        assert forall|i: int| 0 <= i < decimal_chars(n).len() implies (#[trigger] os[i]) is Nothing by {
            if i < decimal_chars(m).len() {
                assert(os[i] == feed_all(v, decimal_chars(m)).1[i]);
            }
        }
    }
}

/// `ESC [ n` followed by the final byte `fin`, from the ground state: what
/// each character yields.
pub open spec fn csi_outs(v: ParserView, n: nat, fin: char) -> Seq<Out> {
    feed_all(v, seq!['\x1B', '['] + decimal_chars(n) + seq![fin]).1
}

/// The ECMA-48 functions that take one numeric parameter, by final byte:
/// ICH `@`, CUU `A`, CUD `B`, CUF `C`, CUB `D`, CHA `G`, IL `L`, DL `M`,
/// DCH `P`, ECH `X`, VPA `d`.
pub open spec fn one_parameter_function(fin: char, n: u16) -> Option<Function> {
    if fin == '@' {
        Some(Function::ICH(n))
    } else if fin == 'A' {
        Some(Function::CUU(n))
    } else if fin == 'B' {
        Some(Function::CUD(n))
    } else if fin == 'C' {
        Some(Function::CUF(n))
    } else if fin == 'D' {
        Some(Function::CUB(n))
    } else if fin == 'G' {
        Some(Function::CHA(n))
    } else if fin == 'L' {
        Some(Function::IL(n))
    } else if fin == 'M' {
        Some(Function::DL(n))
    } else if fin == 'P' {
        Some(Function::DCH(n))
    } else if fin == 'X' {
        Some(Function::ECH(n))
    } else if fin == 'd' {
        Some(Function::VPA(n))
    } else {
        None
    }
}

/// The final byte names the function: from the ground state, `ESC [ n fin`
/// for a final byte of one-parameter function yields that function with
/// parameter `n` (so `ESC [ n G` moves to column n of the same row, CHA,
/// and `ESC [ n d` to row n of the same column, VPA), and only at its last
/// character.
pub proof fn lemma_final_byte_names_the_function(v: ParserView, n: u16, fin: char)
    requires
        v.state == State::Normal,
        one_parameter_function(fin, n) is Some,
    ensures
        csi_outs(v, n as nat, fin).last() == Out::Func(one_parameter_function(fin, n)->0),
        forall|i: int| 0 <= i < csi_outs(v, n as nat, fin).len() - 1 ==> (#[trigger] csi_outs(v, n as nat, fin)[i]) is Nothing,
{
    let pre = seq!['\x1B', '['];
    reveal_with_fuel(feed_all, 3);
    assert(pre.drop_first() =~= seq!['[']);
    assert(seq!['['].drop_first() =~= Seq::<char>::empty());
    let w = feed_all(v, pre).0;
    assert(w == (ParserView { state: State::ControlSeq, ..cleared(v) }));
    lemma_digits_make_parameter(w, n as nat);
    assert(w.params.update(0, n) =~= seq![n]);
    let digits = decimal_chars(n as nat);
    let u = feed_all(w, digits).0;
    lemma_feed_all_concat(v, pre, digits);
    lemma_feed_all_concat(v, pre + digits, seq![fin]);
    assert(seq![fin].drop_first() =~= Seq::<char>::empty());
    let a = feed_all(v, pre).1;
    let b = feed_all(w, digits).1;
    let c = feed_all(u, seq![fin]).1;
    assert(c == seq![Out::Func(one_parameter_function(fin, n)->0)]);
    let outs = csi_outs(v, n as nat, fin);
    assert(outs == a + b + c);
    assert forall|i: int| 0 <= i < outs.len() - 1 implies (#[trigger] outs[i]) is Nothing by {
        if i < 2 {
            assert(outs[i] == a[i]);
        } else {
            assert(outs[i] == b[i - 2]);
        }
    }
}

/// `ESC [ r ; c fin`: what each character yields.
pub open spec fn csi2_outs(v: ParserView, r: nat, c: nat, fin: char) -> Seq<Out> {
    feed_all(v, seq!['\x1B', '['] + decimal_chars(r) + seq![';'] + decimal_chars(c) + seq![fin]).1
}

/// From the ground state, `ESC [ r ; c H` yields CUP(r, c) and
/// `ESC [ r ; c f` yields HVP(r, c): the first parameter is the row, the
/// second the column; only the last character yields something.
pub proof fn lemma_cursor_position_parameters(v: ParserView, r: u16, c: u16, fin: char)
    requires
        v.state == State::Normal,
        fin == 'H' || fin == 'f',
    ensures
        csi2_outs(v, r as nat, c as nat, fin).last() == Out::Func(
            if fin == 'H' { Function::CUP(r, c) } else { Function::HVP(r, c) },
        ),
        forall|i: int| 0 <= i < csi2_outs(v, r as nat, c as nat, fin).len() - 1 ==> (#[trigger] csi2_outs(v, r as nat, c as nat, fin)[i]) is Nothing,
{
    let pre = seq!['\x1B', '['];
    reveal_with_fuel(feed_all, 3);
    assert(pre.drop_first() =~= seq!['[']);
    assert(seq!['['].drop_first() =~= Seq::<char>::empty());
    let w = feed_all(v, pre).0;
    assert(w == (ParserView { state: State::ControlSeq, ..cleared(v) }));
    let dr = decimal_chars(r as nat);
    let dc = decimal_chars(c as nat);
    lemma_digits_make_parameter(w, r as nat);
    let w1 = feed_all(w, dr).0;
    assert(w1.params =~= seq![r]);
    assert(seq![';'].drop_first() =~= Seq::<char>::empty());
    let w2 = feed_all(w1, seq![';']).0;
    assert(w2.params =~= seq![r, 0u16]);
    lemma_digits_make_parameter(w2, c as nat);
    let w3 = feed_all(w2, dc).0;
    assert(w3.params =~= seq![r, c]);
    assert(seq![fin].drop_first() =~= Seq::<char>::empty());
    lemma_feed_all_concat(v, pre, dr);
    lemma_feed_all_concat(v, pre + dr, seq![';']);
    lemma_feed_all_concat(v, pre + dr + seq![';'], dc);
    lemma_feed_all_concat(v, pre + dr + seq![';'] + dc, seq![fin]);
    let a = feed_all(v, pre).1;
    let b = feed_all(w, dr).1;
    let s1 = feed_all(w1, seq![';']).1;
    let d = feed_all(w2, dc).1;
    let e = feed_all(w3, seq![fin]).1;
    assert(e == seq![Out::Func(if fin == 'H' { Function::CUP(r, c) } else { Function::HVP(r, c) })]);
    let outs = csi2_outs(v, r as nat, c as nat, fin);
    assert(outs == a + b + s1 + d + e);
    assert forall|i: int| 0 <= i < outs.len() - 1 implies (#[trigger] outs[i]) is Nothing by {
        if i < 2 {
            assert(outs[i] == a[i]);
        } else if i < 2 + b.len() {
            assert(outs[i] == b[i - 2]);
        } else if i == 2 + b.len() {
            assert(outs[i] == s1[0]);
        } else {
            assert(outs[i] == d[i - 3 - b.len()]);
        }
    }
}

/// After a character that completes a function, the parser is back in the
/// ground state and behaves from then on as any parser in the ground state
/// with the same color registers: what was collected for the function does
/// not leak into the next one.
pub proof fn lemma_completed_function_forgets(v: ParserView, ch: char, w: ParserView, next: char)
    requires
        !(step(v, ch).1 is Nothing),
        w.state == State::Normal,
        w.colors == step(v, ch).0.colors,
    ensures
        step(v, ch).0.state == State::Normal,
        step(step(v, ch).0, next) == step(w, next),
{
    let u = step(v, ch).0;
    assert(cleared(u) == cleared(w));
}

/// The sixel image that feeding `ch` to `v` would decode can be decoded without panicking.
pub open spec fn step_ok(v: ParserView, ch: char) -> bool {
    step(v, ch).1 matches Out::Sixel(chars) ==> sixel::run_ok(chars, 0, sixel::initial_state(v.colors))
}

/// What a control sequence or string has collected so far.
struct Buffer {
    params: Vec<u16>,
    intermediate: u8,
    private: Option<u8>,
    string: Vec<char>,
}

impl Buffer {
    fn new() -> (b: Self)
        ensures
            b.params@ == seq![0u16],
            b.intermediate == 0,
            b.private is None,
            b.string@ == Seq::<char>::empty(),
    {
        let mut buf = Buffer { params: Vec::new(), intermediate: 0, private: None, string: Vec::new() };
        buf.clear();
        buf
    }

    fn clear(&mut self)
        ensures
            final(self).params@ == seq![0u16],
            final(self).intermediate == 0,
            final(self).private is None,
            final(self).string@ == Seq::<char>::empty(),
    {
        self.params.clear();
        self.params.push(0);
        self.intermediate = 0;
        self.private = None;
        self.string.clear();
        assert(self.params@ =~= seq![0u16]);
    }
}

fn parse_normal(state: &mut State, ch: char) -> (f: Option<Function>)
    requires
        *old(state) == State::Normal,
    ensures
        ({
            let (st, o) = normal_step(ch);
            &&& *final(state) == st
            &&& match o {
                Out::Func(g) => f == Some(g),
                _ => f is None,
            }
        }),
{
    match ch {
        '\x00' => None,
        '\x01' => None,
        '\x02' => None,
        '\x03' => None,
        '\x04' => None,
        '\x05' => None,
        '\x06' => None,
        '\x07' => Some(Function::BEL),
        '\x08' => Some(Function::BS),
        '\x09' => Some(Function::HT),
        '\x0A' => Some(Function::LF),
        '\x0B' => Some(Function::VT),
        '\x0C' => Some(Function::FF),
        '\x0D' => Some(Function::CR),
        '\x0E' => Some(Function::SO),
        '\x0F' => Some(Function::SI),
        '\x10' => None,
        '\x11' => Some(Function::DC1),
        '\x12' => None,
        '\x13' => Some(Function::DC3),
        '\x14' => None,
        '\x15' => None,
        '\x16' => None,
        '\x17' => None,
        '\x18' => Some(Function::CAN),
        '\x19' => None,
        '\x1A' => Some(Function::SUB),
        '\x1B' => {
                *state = State::EscapeSeq;
                None
            },
        '\x7F' => None,
        _ => Some(Function::GraphicChar(ch)),
    }
}

fn parse_escape_sequence(state: &mut State, ch: char) -> (f: Option<Function>)
    requires
        *old(state) == State::EscapeSeq,
    ensures
        ({
            let (st, o) = escape_step(ch);
            &&& *final(state) == st
            &&& match o {
                Out::Func(g) => f == Some(g),
                _ => f is None,
            }
        }),
{
    match ch {
        '\x1B' => None,
        '\x37' => Some(Function::DECSC),
        '\x38' => Some(Function::DECRC),
        '\x40' => Some(Function::Unsupported),
        '\x41' => Some(Function::Unsupported),
        '\x42' => Some(Function::BPH),
        '\x43' => Some(Function::NBH),
        '\x44' => Some(Function::Unsupported),
        '\x45' => Some(Function::NEL),
        '\x46' => Some(Function::SSA),
        '\x47' => Some(Function::ESA),
        '\x48' => Some(Function::HTS),
        '\x49' => Some(Function::HTJ),
        '\x4A' => Some(Function::VTS),
        '\x4B' => Some(Function::PLD),
        '\x4C' => Some(Function::PLU),
        '\x4D' => Some(Function::RI),
        '\x4E' => Some(Function::SS2),
        '\x4F' => Some(Function::SS3),
        '\x50' => {
                *state = State::DeviceControlString;
                None
            },
        '\x51' => Some(Function::PU1),
        '\x52' => Some(Function::PU2),
        '\x53' => Some(Function::STS),
        '\x54' => Some(Function::CCH),
        '\x55' => Some(Function::MW),
        '\x56' => Some(Function::SPA),
        '\x57' => Some(Function::EPA),
        '\x58' => {
                *state = State::StartOfString;
                None
            },
        '\x59' => Some(Function::Unsupported),
        '\x5A' => Some(Function::SCI),
        '\x5B' => {
                *state = State::ControlSeq;
                None
            },
        '\x5C' => Some(Function::ST),
        '\x5D' => {
                *state = State::OperatingSystemCommand;
                None
            },
        '\x5E' => {
                *state = State::PrivacyMessage;
                None
            },
        '\x5F' => {
                *state = State::ApplicationProgramCommand;
                None
            },
        '\x7F' => Some(Function::Unsupported),
        '\x60'..='\x7F' => Some(Function::Unsupported),
        _ => Some(Function::Invalid),
    }
}

fn unwrap_private(p: Option<u8>) -> (b: u8)
    ensures
        b == private_or_zero(p),
{
    match p {
        Some(b) => b,
        None => 0,
    }
}

fn copy_params(ps: &Vec<u16>) -> (v: Vec<u16>)
    ensures
        v@ == ps@,
{
    let mut v: Vec<u16> = Vec::new();
    let mut i: usize = 0;
    while i < ps.len()
        invariant
            i <= ps@.len(),
            v@ == ps@.subrange(0, i as int),
        decreases ps@.len() - i,
    {
        v.push(ps[i]);
        i += 1;
        assert(v@ =~= ps@.subrange(0, i as int));
    }
    v
}

/// The function of a complete control sequence.
fn dispatch(buf: &Buffer, ch: char) -> (f: Option<Function>)
    ensures
        match final_step(buf.intermediate, ch, buf.params@, buf.private) {
            Out::Func(g) => f == Some(g),
            Out::Sgr(ps) => f matches Some(Function::SGR(v)) && v@ == ps,
            _ => false,
        },
{
    let n = buf.params.len();
    let i = buf.intermediate;
    if i == 0 {
        match ch {
                '\x40' => if n == 1 { Some(Function::ICH(buf.params[0])) } else { Some(Function::Invalid) },
                '\x41' => if n == 1 { Some(Function::CUU(buf.params[0])) } else { Some(Function::Invalid) },
                '\x42' => if n == 1 { Some(Function::CUD(buf.params[0])) } else { Some(Function::Invalid) },
                '\x43' => if n == 1 { Some(Function::CUF(buf.params[0])) } else { Some(Function::Invalid) },
                '\x44' => if n == 1 { Some(Function::CUB(buf.params[0])) } else { Some(Function::Invalid) },
                '\x45' => Some(Function::CNL),
                '\x46' => Some(Function::CPL),
                '\x47' => if n == 1 { Some(Function::CHA(buf.params[0])) } else { Some(Function::Invalid) },
                '\x48' => if n == 2 { Some(Function::CUP(buf.params[0], buf.params[1])) } else if n == 1 { Some(Function::CUP(buf.params[0], 1)) } else { Some(Function::Invalid) },
                '\x49' => Some(Function::CHT),
                '\x4A' => if n == 1 && buf.params[0] <= 2 { Some(Function::ED(buf.params[0])) } else { Some(Function::Invalid) },
                '\x4B' => if n == 1 && buf.params[0] <= 2 { Some(Function::EL(buf.params[0])) } else { Some(Function::Invalid) },
                '\x4C' => if n == 1 { Some(Function::IL(buf.params[0])) } else { Some(Function::Invalid) },
                '\x4D' => if n == 1 { Some(Function::DL(buf.params[0])) } else { Some(Function::Invalid) },
                '\x4E' => Some(Function::EF),
                '\x4F' => Some(Function::EA),
                '\x50' => if n == 1 { Some(Function::DCH(buf.params[0])) } else { Some(Function::Invalid) },
                '\x51' => Some(Function::SSE),
                '\x52' => Some(Function::CPR),
                '\x53' => Some(Function::SU),
                '\x54' => Some(Function::SD),
                '\x55' => Some(Function::NP),
                '\x56' => Some(Function::PP),
                '\x57' => Some(Function::CTC),
                '\x58' => if n == 1 { Some(Function::ECH(buf.params[0])) } else { Some(Function::Invalid) },
                '\x59' => Some(Function::CVT),
                '\x5A' => Some(Function::CBT),
                '\x5B' => Some(Function::SRS),
                '\x5C' => Some(Function::PTX),
                '\x5D' => Some(Function::SDS),
                '\x5E' => Some(Function::SIMD),
                '\x5F' => Some(Function::Unsupported),
                '\x60' => Some(Function::HPA),
                '\x61' => Some(Function::HPR),
                '\x62' => Some(Function::REP),
                '\x63' => Some(Function::DA),
                '\x64' => if n == 1 { Some(Function::VPA(buf.params[0])) } else { Some(Function::Invalid) },
                '\x65' => Some(Function::VPR),
                '\x66' => if n == 2 { Some(Function::HVP(buf.params[0], buf.params[1])) } else if n == 1 { Some(Function::HVP(buf.params[0], 1)) } else { Some(Function::Invalid) },
                '\x67' => Some(Function::TBC),
                '\x68' => if n == 1 { Some(Function::SM(unwrap_private(buf.private), buf.params[0])) } else { Some(Function::Invalid) },
                '\x69' => Some(Function::MC),
                '\x6A' => Some(Function::HPB),
                '\x6B' => Some(Function::VPB),
                '\x6C' => if n == 1 { Some(Function::RM(unwrap_private(buf.private), buf.params[0])) } else { Some(Function::Invalid) },
                '\x6D' => Some(Function::SGR(copy_params(&buf.params))),
                '\x6E' => if n == 1 && (buf.params[0] == 5 || buf.params[0] == 6) { Some(Function::DSR(buf.params[0])) } else { Some(Function::Invalid) },
                '\x6F' => Some(Function::DAQ),
            '\x70'..='\x7E' => Some(Function::Unsupported),
            _ => Some(Function::Invalid),
        }
    } else if i == 0x20 {
        match ch {
                '\x40' => Some(Function::SL),
                '\x41' => Some(Function::SR),
                '\x42' => Some(Function::GSM),
                '\x43' => Some(Function::GSS),
                '\x44' => Some(Function::FNT),
                '\x45' => Some(Function::TSS),
                '\x46' => Some(Function::JFY),
                '\x47' => Some(Function::SPI),
                '\x48' => Some(Function::QUAD),
                '\x49' => Some(Function::SSU),
                '\x4A' => Some(Function::PFS),
                '\x4B' => Some(Function::SHS),
                '\x4C' => Some(Function::SVS),
                '\x4D' => Some(Function::IGS),
                '\x4E' => Some(Function::Unsupported),
                '\x4F' => Some(Function::IDCS),
                '\x50' => Some(Function::PPA),
                '\x51' => Some(Function::PPR),
                '\x52' => Some(Function::PPB),
                '\x53' => Some(Function::SPD),
                '\x54' => Some(Function::DTA),
                '\x55' => Some(Function::SHL),
                '\x56' => Some(Function::SLL),
                '\x57' => Some(Function::FNK),
                '\x58' => Some(Function::SPQR),
                '\x59' => Some(Function::SEF),
                '\x5A' => Some(Function::PEC),
                '\x5B' => Some(Function::SSW),
                '\x5C' => Some(Function::SACS),
                '\x5D' => Some(Function::SAPV),
                '\x5E' => Some(Function::STAB),
                '\x5F' => Some(Function::GCC),
                '\x60' => Some(Function::TATE),
                '\x61' => Some(Function::TALE),
                '\x62' => Some(Function::TAC),
                '\x63' => Some(Function::TCC),
                '\x64' => Some(Function::TSR),
                '\x65' => Some(Function::SCO),
                '\x66' => Some(Function::SRCS),
                '\x67' => Some(Function::SCS),
                '\x68' => Some(Function::SLS),
                '\x69' => Some(Function::Unsupported),
                '\x6A' => Some(Function::Unsupported),
                '\x6B' => Some(Function::SCP),
                '\x6C' => Some(Function::Unsupported),
                '\x6D' => Some(Function::Unsupported),
                '\x6E' => Some(Function::Unsupported),
                '\x6F' => Some(Function::Unsupported),
                '\x71' => if n == 1 { Some(Function::SelectCursorStyle(buf.params[0])) } else { Some(Function::Unsupported) },
            '\x70'..='\x7E' => Some(Function::Unsupported),
            _ => Some(Function::Invalid),
        }
    } else if 0x21 <= i && i <= 0x2F {
        Some(Function::Unsupported)
    } else {
        Some(Function::Invalid)
    }
}

fn parse_control_sequence(state: &mut State, buf: &mut Buffer, ch: char, ghost_colors: Ghost<Seq<Color>>) -> (f: Option<Function>)
    requires
        *old(state) == State::ControlSeq,
        old(buf).params@.len() >= 1,
    ensures
        ({
            let v = ParserView {
                state: *old(state),
                params: old(buf).params@,
                intermediate: old(buf).intermediate,
                private: old(buf).private,
                string: old(buf).string@,
                colors: ghost_colors@,
            };
            let (v2, o) = control_seq_step(v, ch);
            &&& *final(state) == v2.state
            &&& final(buf).params@ == v2.params
            &&& final(buf).intermediate == v2.intermediate
            &&& final(buf).private == v2.private
            &&& final(buf).string@ == v2.string
            &&& match o {
                Out::Nothing => f is None,
                Out::Func(g) => f == Some(g),
                Out::Sgr(ps) => f matches Some(Function::SGR(v)) && v@ == ps,
                Out::Sixel(_) => false,
            }
        }),
{
    if ch == '\x1B' {
        buf.clear();
        *state = State::EscapeSeq;
        None
    } else if '0' <= ch && ch <= '9' {
        let digit = (ch as u32 - '0' as u32) as u16;
        let k = buf.params.len() - 1;
        let last = buf.params[k];
        let m: u16 = if last > u16::MAX / 10 {
            u16::MAX
        } else {
            last * 10
        };
        buf.params.set(k, m.saturating_add(digit));
        None
    } else if ch == ':' {
        Some(Function::Unsupported)
    } else if ch == ';' {
        buf.params.push(0);
        None
    } else if ch == '<' || ch == '=' || ch == '>' || ch == '?' {
        buf.private = Some(ch as u8);
        None
    } else if '\x20' <= ch && ch <= '\x2F' {
        buf.intermediate = ch as u8;
        None
    } else if '\x40' <= ch && ch <= '\x7E' {
        dispatch(buf, ch)
    } else {
        Some(Function::Invalid)
    }
}

/// `img` is the image that decoding `chars` with the color registers
/// `colors` gives.
pub open spec fn decodes_to(img: sixel::Image, chars: Seq<char>, colors: Seq<Color>) -> bool {
    let fin = sixel::run(chars, 0, sixel::initial_state(colors)).0;
    &&& img.width == fin.width
    &&& img.height == fin.height
    &&& img.data@ == fin.data
}

/// `f` is what the decoder returns for the outcome `o`.
pub open spec fn yields(f: Option<Function>, o: Out, colors: Seq<Color>) -> bool {
    match o {
        Out::Nothing => f is None,
        Out::Func(g) => f == Some(g),
        Out::Sgr(ps) => f matches Some(Function::SGR(v)) && v@ == ps,
        Out::Sixel(chars) => f matches Some(Function::SixelImage(img)) && decodes_to(img, chars, colors),
    }
}

/// A control string state: APC, DCS, OSC or PM.
pub open spec fn is_control_string(st: State) -> bool {
    st == State::ApplicationProgramCommand || st == State::DeviceControlString
        || st == State::OperatingSystemCommand || st == State::PrivacyMessage
}

fn copy_tail(s: &Vec<char>) -> (v: Vec<char>)
    requires
        s@.len() >= 1,
    ensures
        v@ == s@.subrange(1, s@.len() as int),
{
    let mut v: Vec<char> = Vec::new();
    let mut i: usize = 1;
    while i < s.len()
        invariant
            1 <= i <= s@.len(),
            v@ == s@.subrange(1, i as int),
        decreases s@.len() - i,
    {
        v.push(s[i]);
        i += 1;
        assert(v@ =~= s@.subrange(1, i as int));
    }
    v
}

fn parse_control_string(
    state: &State,
    buf: &mut Buffer,
    sixel_parser: &mut sixel::Parser,
    ch: char,
) -> (f: Option<Function>)
    requires
        is_control_string(*state),
        ({
            let v = ParserView {
                state: *state,
                params: old(buf).params@,
                intermediate: old(buf).intermediate,
                private: old(buf).private,
                string: old(buf).string@,
                colors: old(sixel_parser).colors(),
            };
            step_ok(v, ch)
        }),
    ensures
        ({
            let v = ParserView {
                state: *state,
                params: old(buf).params@,
                intermediate: old(buf).intermediate,
                private: old(buf).private,
                string: old(buf).string@,
                colors: old(sixel_parser).colors(),
            };
            let (v2, o) = control_string_step(v, ch);
            &&& final(buf).params@ == v2.params
            &&& final(buf).intermediate == v2.intermediate
            &&& final(buf).private == v2.private
            &&& final(buf).string@ == v2.string
            &&& final(sixel_parser).colors() == v2.colors
            &&& yields(f, o, v.colors)
        }),
{
    let n = buf.string.len();
    if n > 0 && buf.string[n - 1] == '\x1B' && ch == '\x5C' {
        buf.string.pop();
        if *state == State::DeviceControlString && buf.string.len() > 0 && buf.string[0] == 'q' {
            let chars = copy_tail(&buf.string);
            let mut stream = CharStream::new(chars);
            let image = sixel_parser.decode(&mut stream);
            Some(Function::SixelImage(image))
        } else {
            Some(Function::Unsupported)
        }
    } else if ('\x08' <= ch && ch <= '\x0D') || ch == '\x1B' || ('\x20' <= ch && ch <= '\x7E') {
        buf.string.push(ch);
        None
    } else {
        Some(Function::Invalid)
    }
}

fn parse_character_string(buf: &mut Buffer, ch: char) -> (f: Option<Function>)
    ensures
        ({
            let v = ParserView {
                state: State::StartOfString,
                params: old(buf).params@,
                intermediate: old(buf).intermediate,
                private: old(buf).private,
                string: old(buf).string@,
                colors: Seq::empty(),
            };
            let (v2, o) = character_string_step(v, ch);
            &&& final(buf).params@ == v2.params
            &&& final(buf).intermediate == v2.intermediate
            &&& final(buf).private == v2.private
            &&& final(buf).string@ == v2.string
            &&& yields(f, o, v.colors)
        }),
{
    let n = buf.string.len();
    if n > 0 && buf.string[n - 1] == '\x1B' && ch == '\x5C' {
        buf.string.pop();
        Some(Function::Unsupported)
    } else {
        buf.string.push(ch);
        None
    }
}

/// Decoder of the control functions in a stream of characters.
pub struct Parser {
    state: State,
    buf: Buffer,
    sixel_parser: sixel::Parser,
}

impl Parser {
    /// The parameter list of a control sequence is never empty.
    pub closed spec fn wf(self) -> bool {
        self.buf.params@.len() >= 1
    }

    /// The decoder as a value.
    pub closed spec fn view(self) -> ParserView {
        ParserView {
            state: self.state,
            params: self.buf.params@,
            intermediate: self.buf.intermediate,
            private: self.buf.private,
            string: self.buf.string@,
            colors: self.sixel_parser.colors(),
        }
    }

    /// Another parser in the same state, with the same color registers.
    pub fn duplicate(&self) -> (p: Self)
        ensures
            p.view() == self.view(),
            p.wf() == self.wf(),
    {
        let params = self.buf.params.clone();
        assert(params@ =~= self.buf.params@);
        let string = self.buf.string.clone();
        assert(string@ =~= self.buf.string@);
        let buf = Buffer { params, intermediate: self.buf.intermediate, private: self.buf.private, string };
        Parser { state: self.state, buf, sixel_parser: self.sixel_parser.duplicate() }
    }

    /// Whether feeding `ch` can be carried out (`step_ok`): where it ends a
    /// sixel string, whether the image can be decoded.
    pub fn can_feed(&self, ch: char) -> (b: bool)
        ensures
            b == step_ok(self.view(), ch),
    {
        match self.state {
            State::Normal | State::EscapeSeq | State::ControlSeq | State::StartOfString => true,
            _ => {
                let n = self.buf.string.len();
                if n > 0 && self.buf.string[n - 1] == '\x1B' && ch == '\x5C' && self.state
                    == State::DeviceControlString && n > 1 && self.buf.string[0] == 'q' {
                    let mut chars: Vec<char> = Vec::new();
                    let mut i: usize = 1;
                    while i < n - 1
                        invariant
                            1 <= i <= n - 1,
                            n == self.buf.string@.len(),
                            chars@ == self.buf.string@.subrange(1, i as int),
                        decreases n - 1 - i,
                    {
                        chars.push(self.buf.string[i]);
                        i += 1;
                        assert(chars@ =~= self.buf.string@.subrange(1, i as int));
                    }
                    proof {
                        let s = self.buf.string@.drop_last();
                        assert(s.subrange(1, s.len() as int) =~= chars@);
                    }
                    let stream = CharStream::new(chars);
                    self.sixel_parser.can_decode(&stream)
                } else {
                    true
                }
            },
        }
    }

    /// Feeds one character; returns the control function or graphic character
    /// that it completes, if any.
    pub fn feed(&mut self, ch: char) -> (f: Option<Function>)
        requires
            old(self).wf(),
            step_ok(old(self).view(), ch),
        ensures
            final(self).wf(),
            final(self).view() == step(old(self).view(), ch).0,
            yields(f, step(old(self).view(), ch).1, old(self).view().colors),
    {
        let ghost colors = self.sixel_parser.colors();
        let func = match self.state {
            State::Normal => {
                self.buf.clear();
                let mut st = State::Normal;
                let f = parse_normal(&mut st, ch);
                self.state = st;
                f
            },
            State::EscapeSeq => {
                let mut st = State::EscapeSeq;
                let f = parse_escape_sequence(&mut st, ch);
                self.state = st;
                f
            },
            State::ControlSeq => {
                let mut st = State::ControlSeq;
                let f = parse_control_sequence(&mut st, &mut self.buf, ch, Ghost(colors));
                self.state = st;
                f
            },
            State::StartOfString => parse_character_string(&mut self.buf, ch),
            _ => parse_control_string(&self.state, &mut self.buf, &mut self.sixel_parser, ch),
        };
        if func.is_some() {
            self.state = State::Normal;
        }
        func
    }
}

impl Default for Parser {
    fn default() -> (p: Self)
        ensures
            p.wf(),
            p.view().state == State::Normal,
            p.view().params == seq![0u16],
            p.view().intermediate == 0,
            p.view().private is None,
            p.view().string == Seq::<char>::empty(),
            p.view().colors == Seq::new(256, |i: int| Color { r: 0, g: 0, b: 0 }),
    {
        let p = Parser { state: State::Normal, buf: Buffer::new(), sixel_parser: sixel::Parser::new() };
        assert(p.view().colors =~= Seq::new(256, |i: int| Color { r: 0, g: 0, b: 0 }));
        p
    }
}

} // verus!
