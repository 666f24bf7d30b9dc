//! The command-line control tool: its arguments, and the lines that it prints.

use vstd::prelude::*;
use vstd::string::*;

use crate::device::Report;
use crate::proto::{EVT_OVERLOAD, EVT_PHONO, EVT_THRU};
use crate::text::{
    byte_of, decimal, hex2, lemma_value_nonnegative, parse_u32, parse_u8, parse_usize, parsed,
    push_decimal, push_hex2,
};

verus! {

/// Offset of the aux output switch among the audio controls.
pub const AUX_OUTPUT: usize = 8;

/// What the tool is asked to do.
#[derive(Debug, Clone, Copy, PartialEq, Eq, Structural)]
pub enum CtlCommand {
    /// Show controls, overload, status and rate.
    Status,
    /// Set the sample rate.
    Rate(u32),
    /// Show one control.
    GetControl(usize),
    /// Set one control.
    SetControl(usize, u8),
    /// Switch the aux output.
    Output(bool),
    /// Show events as they come.
    Watch,
    /// There is no such command, or its arguments are not complete.
    Unknown,
    /// There is no command.
    Usage,
}

/// A number argument, 0 where it is none.
pub open spec fn number_or_zero(s: Seq<char>, max: int) -> int {
    match parsed(s, 10, max) {
        Some(v) => v,
        None => 0,
    }
}

/// The command that the arguments `args` give; the first is the tool's own name.
pub open spec fn command_of(args: Seq<Seq<char>>) -> CtlCommand {
    if args.len() < 2 {
        CtlCommand::Usage
    } else if args[1] == "status"@ {
        CtlCommand::Status
    } else if args[1] == "rate"@ && args.len() == 3 {
        CtlCommand::Rate(number_or_zero(args[2], u32::MAX as int) as u32)
    } else if args[1] == "get"@ && args.len() == 3 {
        CtlCommand::GetControl(number_or_zero(args[2], usize::MAX as int) as usize)
    } else if args[1] == "set"@ && args.len() == 4 {
        CtlCommand::SetControl(number_or_zero(args[2], usize::MAX as int) as usize, byte_of(args[3]))
    } else if args[1] == "output"@ && args.len() == 3 {
        CtlCommand::Output(args[2] == "on"@)
    } else if args[1] == "watch"@ {
        CtlCommand::Watch
    } else {
        CtlCommand::Unknown
    }
}

/// The texts of the arguments.
pub open spec fn texts(args: Seq<String>) -> Seq<Seq<char>> {
    Seq::new(args.len(), |i: int| args[i]@)
}

/// Whether an argument is this word.
fn is_word(arg: &String, word: &str) -> (r: bool)
    ensures
        r == (arg@ == word@),
{
    *arg == word.to_string()
}

/// A number argument of pointer size, 0 where it is none.
fn offset_of(arg: &String) -> (n: usize)
    ensures
        n == number_or_zero(arg@, usize::MAX as int),
{
    match parse_usize(arg.as_str()) {
        Some(n) => n,
        None => 0,
    }
}

/// Reads the arguments of the tool, of which the first is its own name.
pub fn parse_command(args: &[String]) -> (c: CtlCommand)
    ensures
        c == command_of(texts(args@)),
{
    let n: usize = args.len();
    if n < 2 {
        return CtlCommand::Usage;
    }
    proof {
        assert(texts(args@)[1] == args@[1]@);
        if n >= 3 {
            assert(texts(args@)[2] == args@[2]@);
        }
        if n >= 4 {
            assert(texts(args@)[3] == args@[3]@);
        }
    }
    if is_word(&args[1], "status") {
        CtlCommand::Status
    } else if is_word(&args[1], "rate") && n == 3 {
        CtlCommand::Rate(
            match parse_u32(args[2].as_str()) {
                Some(hz) => hz,
                None => 0,
            },
        )
    } else if is_word(&args[1], "get") && n == 3 {
        CtlCommand::GetControl(offset_of(&args[2]))
    } else if is_word(&args[1], "set") && n == 4 {
        CtlCommand::SetControl(offset_of(&args[2]), parse_u8(args[3].as_str()))
    } else if is_word(&args[1], "output") && n == 3 {
        CtlCommand::Output(is_word(&args[2], "on"))
    } else if is_word(&args[1], "watch") {
        CtlCommand::Watch
    } else {
        CtlCommand::Unknown
    }
}

/// The sample rate argument of a tool that has a default.
pub fn rate_argument(arg: Option<&String>, default: u32) -> (hz: u32)
    ensures
        hz == match arg {
            Some(s) => match parsed(s@, 10, u32::MAX as int) {
                Some(v) => v as u32,
                None => default,
            },
            None => default,
        },
{
    match arg {
        Some(s) => match parse_u32(s.as_str()) {
            Some(v) => v,
            None => default,
        },
        None => default,
    }
}

// ----------------------------------- lines ----------------------------------

/// Bytes in hexadecimal, each after a blank.
pub open spec fn hex_list(bytes: Seq<u8>) -> Seq<char>
    decreases bytes.len(),
{
    if bytes.len() == 0 {
        Seq::empty()
    } else {
        hex_list(bytes.drop_last()) + " "@ + hex2(bytes.last())
    }
}

/// Appends the first `n` bytes from `from` on, each after a blank.
pub fn push_hex_list(out: &mut String, bytes: &[u8], from: usize, n: usize)
    requires
        from + n <= bytes@.len(),
    ensures
        final(out)@ == old(out)@ + hex_list(bytes@.subrange(from as int, from + n)),
{
    let ghost start = out@;
    let mut i: usize = 0;
    assert(start + hex_list(bytes@.subrange(from as int, from as int)) =~= start);
    while i < n
        invariant
            i <= n,
            from + n <= bytes@.len(),
            out@ == start + hex_list(bytes@.subrange(from as int, from + i)),
        decreases n - i,
    {
        assert(bytes.len() == bytes@.len());
        let ghost before = out@;
        out.append(" ");
        push_hex2(out, bytes[from + i]);
        proof {
            let more = bytes@.subrange(from as int, from + i + 1);
            assert(more.drop_last() =~= bytes@.subrange(from as int, from + i));
            assert(more.last() == bytes@[from + i]);
            assert(out@ =~= start + hex_list(more));
        }
        i = i + 1;
    }
}

/// How the aux output is shown.
pub open spec fn on_off(on: bool) -> Seq<char> {
    if on {
        "ON"@
    } else {
        "off"@
    }
}

/// The name of a switch state.
fn on_off_name(on: bool) -> (s: &'static str)
    ensures
        s@ == on_off(on),
{
    if on {
        "ON"
    } else {
        "off"
    }
}

/// The lines about the audio controls.
pub fn controls_lines(controls: &[u8; 22]) -> (s: String)
    ensures
        s@ == "audio-controls[22]:"@ + hex_list(controls@) + "\n  (offset 8 = aux output = "@
            + on_off(controls@[AUX_OUTPUT as int] != 0) + ")"@,
{
    let mut s: String = "audio-controls[22]:".to_string();
    push_hex_list(&mut s, controls.as_slice(), 0, 22);
    assert(controls@.subrange(0, 22) =~= controls@);
    s.append("\n  (offset 8 = aux output = ");
    s.append(on_off_name(controls[AUX_OUTPUT] != 0));
    s.append(")");
    s
}

/// The line about the overload block.
pub fn overload_line(o: &[u8; 6]) -> (s: String)
    ensures
        s@ == "overload: "@ + hex_list(o@),
{
    let mut s: String = "overload: ".to_string();
    push_hex_list(&mut s, o.as_slice(), 0, 6);
    assert(o@.subrange(0, 6) =~= o@);
    s
}

/// The line about the status byte.
pub fn status_line(status: u8) -> (s: String)
    ensures
        s@ == "status:    0x"@ + hex2(status),
{
    let mut s: String = "status:    0x".to_string();
    push_hex2(&mut s, status);
    s
}

/// The line about the sample rate.
pub fn rate_line(hz: u32) -> (s: String)
    ensures
        s@ == "rate:      "@ + decimal(hz as nat) + " Hz"@,
{
    let mut s: String = "rate:      ".to_string();
    push_decimal(&mut s, hz as u64);
    s.append(" Hz");
    s
}

/// The line when the sample rate was set.
pub fn rate_set_line(hz: u32) -> (s: String)
    ensures
        s@ == "sample rate set to "@ + decimal(hz as nat) + " Hz"@,
{
    let mut s: String = "sample rate set to ".to_string();
    push_decimal(&mut s, hz as u64);
    s.append(" Hz");
    s
}

/// The line about one control.
pub fn control_line(offset: usize, value: u8) -> (s: String)
    ensures
        s@ == "control["@ + decimal(offset as nat) + "] = 0x"@ + hex2(value),
{
    let mut s: String = "control[".to_string();
    push_decimal(&mut s, offset as u64);
    s.append("] = 0x");
    push_hex2(&mut s, value);
    s
}

/// The line when a control was set.
pub fn control_set_line(offset: usize, value: u8) -> (s: String)
    ensures
        s@ == "set control["@ + decimal(offset as nat) + "] = 0x"@ + hex2(value),
{
    let mut s: String = "set control[".to_string();
    push_decimal(&mut s, offset as u64);
    s.append("] = 0x");
    push_hex2(&mut s, value);
    s
}

/// The line when the aux output was switched.
pub fn output_line(on: bool) -> (s: String)
    ensures
        s@ == "aux output "@ + on_off(on),
{
    let mut s: String = "aux output ".to_string();
    s.append(on_off_name(on));
    s
}

/// The line about a report that came unasked.
pub open spec fn event_text(r: Seq<u8>) -> Seq<char> {
    if r[0] == EVT_PHONO {
        "phono:   "@ + hex_list(r.subrange(5, 8))
    } else if r[0] == EVT_THRU {
        "thru:    "@ + hex_list(r.subrange(5, 9))
    } else if r[0] == EVT_OVERLOAD {
        "overload:"@ + hex_list(r.subrange(5, 11))
    } else {
        "event 0x"@ + hex2(r[0]) + ":"@ + hex_list(r.subrange(5, 8)) + " ..."@
    }
}

/// The line about a report that came unasked.
pub fn event_line(r: &Report) -> (s: String)
    ensures
        s@ == event_text(r@),
{
    if r[0] == EVT_PHONO {
        let mut s: String = "phono:   ".to_string();
        push_hex_list(&mut s, r.as_slice(), 5, 3);
        s
    } else if r[0] == EVT_THRU {
        let mut s: String = "thru:    ".to_string();
        push_hex_list(&mut s, r.as_slice(), 5, 4);
        s
    } else if r[0] == EVT_OVERLOAD {
        let mut s: String = "overload:".to_string();
        push_hex_list(&mut s, r.as_slice(), 5, 6);
        s
    } else {
        let mut s: String = "event 0x".to_string();
        push_hex2(&mut s, r[0]);
        s.append(":");
        push_hex_list(&mut s, r.as_slice(), 5, 3);
        s.append(" ...");
        s
    }
}

// ----------------------------------- laws -----------------------------------

/// Bytes are listed in order, each as a blank and its two digits: the `i`th takes the three
/// characters from `3 * i` on.
pub proof fn law_hex_list(bytes: Seq<u8>)
    ensures
        hex_list(bytes).len() == 3 * bytes.len(),
        forall|i: int|
            0 <= i < bytes.len() ==> hex_list(bytes).subrange(3 * i, 3 * i + 3) == seq![' ']
                + hex2(#[trigger] bytes[i]),
    decreases bytes.len(),
{
    reveal_strlit(" ");
    if bytes.len() > 0 {
        let front = bytes.drop_last();
        law_hex_list(front);
        assert forall|i: int| 0 <= i < bytes.len() implies hex_list(bytes).subrange(
            3 * i,
            3 * i + 3,
        ) == seq![' '] + hex2(#[trigger] bytes[i]) by {
            if i < front.len() {
                assert(front[i] == bytes[i]);
                assert(hex_list(bytes).subrange(3 * i, 3 * i + 3) =~= hex_list(front).subrange(
                    3 * i,
                    3 * i + 3,
                ));
            } else {
                assert(hex_list(bytes).subrange(3 * i, 3 * i + 3) =~= seq![' '] + hex2(bytes[i]));
            }
        }
    }
}

/// What `push_hex_list` appends: the `n` bytes from `from` on, and nothing before or behind them.
pub proof fn law_hex_list_appended(bytes: &[u8], from: usize, n: usize)
    requires
        from + n <= bytes@.len(),
    ensures
        forall|out: &mut String| #[trigger]
            call_ensures(push_hex_list, (out, bytes, from, n), ()) ==> {
                &&& (*final(out))@.len() == (*out)@.len() + 3 * n
                &&& (*final(out))@.take((*out)@.len() as int) == (*out)@
                &&& forall|i: int|
                    0 <= i < n ==> (*final(out))@.subrange(
                        (*out)@.len() + 3 * i,
                        (*out)@.len() + 3 * i + 3,
                    ) == seq![' '] + hex2(#[trigger] bytes@[from + i])
            },
{
    let part = bytes@.subrange(from as int, from + n);
    law_hex_list(part);
    assert forall|out: &mut String| #[trigger]
        call_ensures(push_hex_list, (out, bytes, from, n), ()) implies {
        &&& (*final(out))@.len() == (*out)@.len() + 3 * n
        &&& (*final(out))@.take((*out)@.len() as int) == (*out)@
        &&& forall|i: int|
            0 <= i < n ==> (*final(out))@.subrange(
                (*out)@.len() + 3 * i,
                (*out)@.len() + 3 * i + 3,
            ) == seq![' '] + hex2(#[trigger] bytes@[from + i])
    } by {
        let start = (*out)@;
        let all = (*final(out))@;
        assert(all.take(start.len() as int) =~= start);
        assert forall|i: int| 0 <= i < n implies all.subrange(
            start.len() + 3 * i,
            start.len() + 3 * i + 3,
        ) == seq![' '] + hex2(#[trigger] bytes@[from + i]) by {
            assert(part[i] == bytes@[from + i]);
            assert(all.subrange(start.len() + 3 * i, start.len() + 3 * i + 3) =~= hex_list(
                part,
            ).subrange(3 * i, 3 * i + 3));
        }
    }
}

/// What the arguments mean. The word behind the tool's name picks the command, and its own
/// arguments are read from their places: a number that is none counts as 0, and only `on`
/// switches the output on. With a number of arguments that the word does not take, and with any
/// other word, there is no such command.
pub proof fn law_commands(args: &[String], c: CtlCommand)
    requires
        call_ensures(parse_command, (args,), c),
    ensures
        args@.len() < 2 <==> c is Usage,
        args@.len() >= 2 ==> (c is Status <==> args@[1]@ == "status"@),
        args@.len() >= 2 ==> (c is Watch <==> args@[1]@ == "watch"@),
        args@.len() >= 2 ==> (c is Rate <==> args@[1]@ == "rate"@ && args@.len() == 3),
        args@.len() >= 2 ==> (c is GetControl <==> args@[1]@ == "get"@ && args@.len() == 3),
        args@.len() >= 2 ==> (c is SetControl <==> args@[1]@ == "set"@ && args@.len() == 4),
        args@.len() >= 2 ==> (c is Output <==> args@[1]@ == "output"@ && args@.len() == 3),
        c is Output ==> (c->Output_0 <==> args@[2]@ == "on"@),
        c is Rate ==> match parsed(args@[2]@, 10, 4294967295) {
            Some(v) => c->Rate_0 == v,
            None => c->Rate_0 == 0,
        },
        c is GetControl ==> match parsed(args@[2]@, 10, usize::MAX as int) {
            Some(v) => c->GetControl_0 == v,
            None => c->GetControl_0 == 0,
        },
        c is SetControl ==> match parsed(args@[2]@, 10, usize::MAX as int) {
            Some(v) => c->SetControl_0 == v,
            None => c->SetControl_0 == 0,
        },
        c is SetControl ==> c->SetControl_1 == byte_of(args@[3]@),
{
    reveal_strlit("status");
    reveal_strlit("rate");
    reveal_strlit("get");
    reveal_strlit("set");
    reveal_strlit("output");
    reveal_strlit("watch");
    assert("status"@.len() == 6 && "rate"@.len() == 4 && "get"@.len() == 3 && "set"@.len() == 3);
    assert("output"@.len() == 6 && "watch"@.len() == 5);
    assert("status"@[0] == 's' && "output"@[0] == 'o' && "get"@[0] == 'g' && "set"@[0] == 's');
    let t = texts(args@);
    if args@.len() >= 3 {
        assert(t[2] == args@[2]@);
        lemma_parsed_bounds(t[2], u32::MAX as int);
        lemma_parsed_bounds(t[2], usize::MAX as int);
    }
    if args@.len() >= 4 {
        assert(t[3] == args@[3]@);
    }
}

/// A number that was read is in range.
proof fn lemma_parsed_bounds(s: Seq<char>, max: int)
    ensures
        parsed(s, 10, max) is Some ==> 0 <= parsed(s, 10, max)->0 <= max,
{
    lemma_value_nonnegative(s, 10);
    lemma_value_nonnegative(s.skip(1), 10);
}

/// A tool's rate argument is taken where it is a number, else the default holds.
pub proof fn law_rate_argument(arg: Option<&String>, default: u32, hz: u32)
    requires
        call_ensures(rate_argument, (arg, default), hz),
    ensures
        arg is None ==> hz == default,
        arg is Some && parsed(arg->0@, 10, 4294967295) is Some ==> hz == parsed(
            arg->0@,
            10,
            4294967295,
        )->0,
        arg is Some && parsed(arg->0@, 10, 4294967295) is None ==> hz == default,
{
    if arg is Some {
        lemma_parsed_bounds(arg->0@, u32::MAX as int);
    }
}

/// What the lines about the device say: the controls, the overload block and the status byte for
/// byte, the rate as a number, and the aux output on exactly where control 8 is not zero.
pub proof fn law_status_lines(
    controls: [u8; 22],
    o: [u8; 6],
    status: u8,
    hz: u32,
    lines: (String, String, String, String),
)
    requires
        call_ensures(controls_lines, (&controls,), lines.0),
        call_ensures(overload_line, (&o,), lines.1),
        call_ensures(status_line, (status,), lines.2),
        call_ensures(rate_line, (hz,), lines.3),
    ensures
        controls@[8] != 0 ==> lines.0@ == "audio-controls[22]:"@ + hex_list(controls@)
            + "\n  (offset 8 = aux output = "@ + "ON"@ + ")"@,
        controls@[8] == 0 ==> lines.0@ == "audio-controls[22]:"@ + hex_list(controls@)
            + "\n  (offset 8 = aux output = "@ + "off"@ + ")"@,
        lines.1@ == "overload: "@ + hex_list(o@),
        lines.2@ == "status:    0x"@ + hex2(status),
        lines.3@ == "rate:      "@ + decimal(hz as nat) + " Hz"@,
{
}

/// What the lines about a change say: the very value, control and switch state that were set.
pub proof fn law_change_lines(
    hz: u32,
    offset: usize,
    value: u8,
    on: bool,
    lines: (String, String, String, String),
)
    requires
        call_ensures(rate_set_line, (hz,), lines.0),
        call_ensures(control_line, (offset, value), lines.1),
        call_ensures(control_set_line, (offset, value), lines.2),
        call_ensures(output_line, (on,), lines.3),
    ensures
        lines.0@ == "sample rate set to "@ + decimal(hz as nat) + " Hz"@,
        lines.1@ == "control["@ + decimal(offset as nat) + "] = 0x"@ + hex2(value),
        lines.2@ == "set "@ + lines.1@,
        on ==> lines.3@ == "aux output "@ + "ON"@,
        !on ==> lines.3@ == "aux output "@ + "off"@,
{
    reveal_strlit("control[");
    reveal_strlit("set control[");
    reveal_strlit("set ");
    assert("set control["@ =~= "set "@ + "control["@);
    assert(lines.2@ =~= "set "@ + lines.1@);
}

/// What is shown of a report that came unasked: of a phono event three bytes from byte 5 on, of
/// a thru event four, of an overload six; of any other report its code and three bytes.
pub proof fn law_event_lines(r: Report, s: String)
    requires
        call_ensures(event_line, (&r,), s),
    ensures
        r@[0] == 0x38 ==> s@ == "phono:   "@ + hex_list(seq![r@[5], r@[6], r@[7]]),
        r@[0] == 0x39 ==> s@ == "thru:    "@ + hex_list(seq![r@[5], r@[6], r@[7], r@[8]]),
        r@[0] == 0x34 ==> s@ == "overload:"@ + hex_list(
            seq![r@[5], r@[6], r@[7], r@[8], r@[9], r@[10]],
        ),
        r@[0] != 0x38 && r@[0] != 0x39 && r@[0] != 0x34 ==> s@ == "event 0x"@ + hex2(r@[0]) + ":"@
            + hex_list(seq![r@[5], r@[6], r@[7]]) + " ..."@,
{
    assert(r@.subrange(5, 8) =~= seq![r@[5], r@[6], r@[7]]);
    assert(r@.subrange(5, 9) =~= seq![r@[5], r@[6], r@[7], r@[8]]);
    assert(r@.subrange(5, 11) =~= seq![r@[5], r@[6], r@[7], r@[8], r@[9], r@[10]]);
}

} // verus!
