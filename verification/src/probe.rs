//! The lines that the descriptor dump prints.

use vstd::prelude::*;
use vstd::string::*;

use crate::ctl::{hex_list, push_hex_list};
use crate::text::{decimal, hex2, push_decimal, push_hex2};

verus! {

/// The name of a transfer type: the two low bits of an endpoint's attributes.
pub open spec fn xfer_name(attributes: u8) -> Seq<char> {
    if attributes % 4 == 0 {
        "control"@
    } else if attributes % 4 == 1 {
        "isochronous"@
    } else if attributes % 4 == 2 {
        "bulk"@
    } else {
        "interrupt"@
    }
}

/// The name of the transfer type in an endpoint's attributes.
pub fn xfer_type(attributes: u8) -> (s: &'static str)
    ensures
        s@ == xfer_name(attributes),
{
    if attributes % 4 == 0 {
        "control"
    } else if attributes % 4 == 1 {
        "isochronous"
    } else if attributes % 4 == 2 {
        "bulk"
    } else {
        "interrupt"
    }
}

/// The name of the direction of an endpoint: its top address bit.
pub open spec fn direction_name(address: u8) -> Seq<char> {
    if address >= 0x80 {
        "IN"@
    } else {
        "OUT"@
    }
}

/// `n` blanks.
pub open spec fn blanks(n: nat) -> Seq<char> {
    Seq::new(n, |i: int| ' ')
}

/// `s`, and blanks up to `width` characters.
pub open spec fn padded(s: Seq<char>, width: nat) -> Seq<char> {
    if s.len() < width {
        s + blanks((width - s.len()) as nat)
    } else {
        s
    }
}

/// Appends `s`, and blanks up to `width` characters.
fn push_padded(out: &mut String, s: &str, width: usize)
    ensures
        final(out)@ == old(out)@ + padded(s@, width as nat),
{
    let ghost start = out@;
    out.append(s);
    let mut i: usize = s.unicode_len();
    let ghost n = s@.len();
    assert(out@ =~= start + s@ + blanks(0));
    while i < width
        invariant
            n == s@.len(),
            n <= i,
            i <= width || i == n,
            out@ == start + s@ + blanks((i - n) as nat),
        decreases width - i,
    {
        proof {
            reveal_strlit(" ");
        }
        out.append(" ");
        i = i + 1;
        assert(out@ =~= start + s@ + blanks((i - n) as nat));
    }
    assert(out@ =~= start + padded(s@, width as nat));
}

/// The line about an endpoint.
pub fn endpoint_line(address: u8, attributes: u8, max_packet: u16, interval: u8) -> (s: String)
    ensures
        s@ == "    EP 0x"@ + hex2(address) + " "@ + padded(direction_name(address), 4) + " "@
            + padded(xfer_name(attributes), 11) + " maxPkt="@ + decimal(max_packet as nat)
            + " bInterval="@ + decimal(interval as nat),
{
    let mut s: String = "    EP 0x".to_string();
    push_hex2(&mut s, address);
    s.append(" ");
    if address >= 0x80 {
        push_padded(&mut s, "IN", 4);
    } else {
        push_padded(&mut s, "OUT", 4);
    }
    s.append(" ");
    push_padded(&mut s, xfer_type(attributes), 11);
    s.append(" maxPkt=");
    push_decimal(&mut s, max_packet as u64);
    s.append(" bInterval=");
    push_decimal(&mut s, interval as u64);
    s
}

/// Class, subclass and protocol, as the dump shows them.
pub open spec fn class_text(class: u8, sub: u8, proto: u8) -> Seq<char> {
    decimal(class as nat) + "/"@ + decimal(sub as nat) + "/"@ + decimal(proto as nat)
}

/// Appends class, subclass and protocol.
fn push_class(out: &mut String, class: u8, sub: u8, proto: u8)
    ensures
        final(out)@ == old(out)@ + class_text(class, sub, proto),
{
    push_decimal(out, class as u64);
    out.append("/");
    push_decimal(out, sub as u64);
    out.append("/");
    push_decimal(out, proto as u64);
    assert(out@ =~= old(out)@ + class_text(class, sub, proto));
}

/// The line about an alternate setting of an interface.
pub fn interface_line(
    number: u8,
    setting: u8,
    class: u8,
    sub: u8,
    proto: u8,
    endpoints: u8,
) -> (s: String)
    ensures
        s@ == "\n  Interface "@ + decimal(number as nat) + " alt "@ + decimal(setting as nat)
            + " class/sub/proto="@ + class_text(class, sub, proto) + " endpoints="@ + decimal(
            endpoints as nat,
        ),
{
    let mut s: String = "\n  Interface ".to_string();
    push_decimal(&mut s, number as u64);
    s.append(" alt ");
    push_decimal(&mut s, setting as u64);
    s.append(" class/sub/proto=");
    push_class(&mut s, class, sub, proto);
    s.append(" endpoints=");
    push_decimal(&mut s, endpoints as u64);
    s
}

/// The line about the class-specific bytes of an interface.
pub fn extra_line(extra: &[u8]) -> (s: String)
    ensures
        s@ == "    class-specific ("@ + decimal(extra@.len()) + " bytes):"@ + hex_list(extra@),
{
    let mut s: String = "    class-specific (".to_string();
    push_decimal(&mut s, extra.len() as u64);
    s.append(" bytes):");
    push_hex_list(&mut s, extra, 0, extra.len());
    assert(extra@.subrange(0, extra@.len() as int) =~= extra@);
    s
}

/// The line about a configuration.
pub fn configuration_line(number: u8, interfaces: u8, milliamps: u16) -> (s: String)
    ensures
        s@ == "\n--- Configuration "@ + decimal(number as nat) + ": "@ + decimal(
            interfaces as nat,
        ) + " interface(s), "@ + decimal(milliamps as nat) + " mA ---"@,
{
    let mut s: String = "\n--- Configuration ".to_string();
    push_decimal(&mut s, number as u64);
    s.append(": ");
    push_decimal(&mut s, interfaces as u64);
    s.append(" interface(s), ");
    push_decimal(&mut s, milliamps as u64);
    s.append(" mA ---");
    s
}

/// The line about the class of the device.
pub fn class_line(class: u8, sub: u8, proto: u8, configurations: u8) -> (s: String)
    ensures
        s@ == "  class/sub/proto = "@ + class_text(class, sub, proto) + "  numConfigs = "@ + decimal(
            configurations as nat,
        ),
{
    let mut s: String = "  class/sub/proto = ".to_string();
    push_class(&mut s, class, sub, proto);
    s.append("  numConfigs = ");
    push_decimal(&mut s, configurations as u64);
    s
}

// ----------------------------------- laws -----------------------------------

/// The transfer type is the two low bits of the attributes, whatever the others say.
pub proof fn law_transfer_types(attributes: u8, s: &'static str)
    requires
        call_ensures(xfer_type, (attributes,), s),
    ensures
        attributes & 3 == 0 ==> s@ == "control"@,
        attributes & 3 == 1 ==> s@ == "isochronous"@,
        attributes & 3 == 2 ==> s@ == "bulk"@,
        attributes & 3 == 3 ==> s@ == "interrupt"@,
        attributes & 3 <= 3,
{
    assert(attributes & 3 == attributes % 4) by (bit_vector);
}

/// A padded text is the text and then blanks, as long as the width, and never cut.
pub proof fn law_padding(s: Seq<char>, width: nat)
    ensures
        padded(s, width).take(s.len() as int) == s,
        padded(s, width).len() == if s.len() < width {
            width
        } else {
            s.len()
        },
        forall|i: int| s.len() <= i < padded(s, width).len() ==> padded(s, width)[i] == ' ',
{
    assert(padded(s, width).take(s.len() as int) =~= s);
}

/// What the line about an endpoint says: its address, of which the top bit is the direction, its
/// transfer type, and the two numbers.
pub proof fn law_endpoint_line(
    address: u8,
    attributes: u8,
    max_packet: u16,
    interval: u8,
    name: &'static str,
    s: String,
)
    requires
        call_ensures(endpoint_line, (address, attributes, max_packet, interval), s),
        call_ensures(xfer_type, (attributes,), name),
    ensures
        address & 0x80 != 0 ==> s@ == "    EP 0x"@ + hex2(address) + " "@ + padded("IN"@, 4) + " "@
            + padded(name@, 11) + " maxPkt="@ + decimal(max_packet as nat) + " bInterval="@
            + decimal(interval as nat),
        address & 0x80 == 0 ==> s@ == "    EP 0x"@ + hex2(address) + " "@ + padded("OUT"@, 4) + " "@
            + padded(name@, 11) + " maxPkt="@ + decimal(max_packet as nat) + " bInterval="@
            + decimal(interval as nat),
{
    assert(address & 0x80 != 0 <==> address >= 0x80) by (bit_vector);
}

/// What the other lines say, number by number and byte by byte, in their order.
pub proof fn law_descriptor_lines(
    a: u8,
    b: u8,
    class: u8,
    sub: u8,
    proto: u8,
    n: u8,
    milliamps: u16,
    extra: &[u8],
    lines: (String, String, String, String),
)
    requires
        call_ensures(interface_line, (a, b, class, sub, proto, n), lines.0),
        call_ensures(extra_line, (extra,), lines.1),
        call_ensures(configuration_line, (a, n, milliamps), lines.2),
        call_ensures(class_line, (class, sub, proto, n), lines.3),
    ensures
        ({
            let triple = decimal(class as nat) + "/"@ + decimal(sub as nat) + "/"@ + decimal(
                proto as nat,
            );
            &&& lines.0@ == "\n  Interface "@ + decimal(a as nat) + " alt "@ + decimal(b as nat)
                + " class/sub/proto="@ + triple + " endpoints="@ + decimal(n as nat)
            &&& lines.3@ == "  class/sub/proto = "@ + triple + "  numConfigs = "@ + decimal(
                n as nat,
            )
        }),
        lines.1@ == "    class-specific ("@ + decimal(extra@.len()) + " bytes):"@ + hex_list(extra@),
        lines.2@ == "\n--- Configuration "@ + decimal(a as nat) + ": "@ + decimal(n as nat)
            + " interface(s), "@ + decimal(milliamps as nat) + " mA ---"@,
{
}

} // verus!
