//! The serial ports of this machine, as they are listed: USB first, then by
//! name, each with what the device reports about itself.

use vstd::prelude::*;

verus! {

/// What kind of port it is.
#[derive(Debug)]
pub enum PortKind {
    /// A USB adapter.
    Usb {
        vid: u16,
        pid: u16,
        manufacturer: Option<String>,
        product: Option<String>,
        serial_number: Option<String>,
    },
    /// A PCI card.
    Pci,
    /// Bluetooth.
    Bluetooth,
    /// Something else.
    Unknown,
}

/// A serial port.
#[derive(Debug)]
pub struct Port {
    /// What to pass as the device.
    pub name: String,
    /// What kind of port it is.
    pub kind: PortKind,
}

// --- Describing one ----------------------------------------------------------

/// The parts of a USB adapter's own name that it reports, with a space between
/// them.
pub open spec fn usb_name(manufacturer: Option<String>, product: Option<String>) -> Seq<u8> {
    match (manufacturer, product) {
        (Some(m), Some(p)) => vstd::utf8::encode_utf8(m@) + vstd::utf8::encode_utf8(" "@)
            + vstd::utf8::encode_utf8(p@),
        (Some(m), None) => vstd::utf8::encode_utf8(m@),
        (None, Some(p)) => vstd::utf8::encode_utf8(p@),
        (None, None) => Seq::empty(),
    }
}

/// The numbers and the serial number of a USB adapter.
pub open spec fn usb_numbers(vid: u16, pid: u16, serial_number: Option<String>) -> Seq<u8> {
    let numbers = crate::text::hex(vid as nat, 4) + vstd::utf8::encode_utf8(":"@)
        + crate::text::hex(pid as nat, 4);
    match serial_number {
        Some(serial) => numbers + vstd::utf8::encode_utf8("  serial "@) + vstd::utf8::encode_utf8(
            serial@,
        ),
        None => numbers,
    }
}

/// A port's kind in one line.
pub open spec fn description(kind: PortKind) -> Seq<u8> {
    match kind {
        PortKind::Usb { vid, pid, manufacturer, product, serial_number } => {
            let name = usb_name(manufacturer, product);
            let named = if name.len() == 0 {
                name
            } else {
                name + vstd::utf8::encode_utf8("  "@)
            };
            named + usb_numbers(vid, pid, serial_number)
        },
        PortKind::Pci => vstd::utf8::encode_utf8("PCI serial"@),
        PortKind::Bluetooth => vstd::utf8::encode_utf8("Bluetooth serial"@),
        PortKind::Unknown => vstd::utf8::encode_utf8("unknown"@),
    }
}

/// Appends a USB adapter's own name.
fn push_usb_name(text: &mut Vec<u8>, manufacturer: &Option<String>, product: &Option<String>)
    requires
        vstd::utf8::valid_utf8(old(text)@),
    ensures
        final(text)@ == old(text)@ + usb_name(*manufacturer, *product),
        vstd::utf8::valid_utf8(final(text)@),
{
    let ghost before = text@;
    if let Some(manufacturer) = manufacturer {
        crate::text::push_text(text, manufacturer.as_str());
        if product.is_some() {
            crate::text::push_text(text, " ");
        }
    }
    if let Some(product) = product {
        crate::text::push_text(text, product.as_str());
    }
    proof {
        assert(text@ =~= before + usb_name(*manufacturer, *product));
    }
}

/// Appends the numbers and the serial number of a USB adapter.
fn push_usb_numbers(text: &mut Vec<u8>, vid: u16, pid: u16, serial_number: &Option<String>)
    requires
        vstd::utf8::valid_utf8(old(text)@),
    ensures
        final(text)@ == old(text)@ + usb_numbers(vid, pid, *serial_number),
        vstd::utf8::valid_utf8(final(text)@),
{
    let ghost before = text@;
    crate::text::push_hex_text(text, vid as u64, 4);
    crate::text::push_text(text, ":");
    crate::text::push_hex_text(text, pid as u64, 4);
    if let Some(serial) = serial_number {
        crate::text::push_text(text, "  serial ");
        crate::text::push_text(text, serial.as_str());
    }
    proof {
        assert(text@ =~= before + usb_numbers(vid, pid, *serial_number));
    }
}

/// Appends a description.
fn push_description(text: &mut Vec<u8>, kind: &PortKind)
    requires
        vstd::utf8::valid_utf8(old(text)@),
    ensures
        final(text)@ == old(text)@ + description(*kind),
        vstd::utf8::valid_utf8(final(text)@),
{
    let ghost before = text@;
    match kind {
        PortKind::Usb { vid, pid, manufacturer, product, serial_number } => {
            let start: usize = text.len();
            push_usb_name(text, manufacturer, product);
            if text.len() > start {
                crate::text::push_text(text, "  ");
            }
            push_usb_numbers(text, *vid, *pid, serial_number);
            proof {
                assert(text@ =~= before + description(*kind));
            }
        },
        PortKind::Pci => crate::text::push_text(text, "PCI serial"),
        PortKind::Bluetooth => crate::text::push_text(text, "Bluetooth serial"),
        PortKind::Unknown => crate::text::push_text(text, "unknown"),
    }
}

/// Describes a port's kind in one line: for USB, whatever the device reports
/// about itself, which is what tells one cable from another.
pub fn describe(kind: &PortKind) -> (res: String)
    ensures
        vstd::utf8::encode_utf8(res@) == description(*kind),
{
    let mut text: Vec<u8> = Vec::new();
    push_description(&mut text, kind);
    proof {
        assert(text@ =~= description(*kind));
    }
    crate::text::to_text(&text)
}

// --- Arranging them ------------------------------------------------------------

/// What a port is sorted by: whether it is something else than USB, and its
/// name.
pub open spec fn key(port: Port) -> (bool, Seq<u8>) {
    (!(port.kind is Usb), vstd::utf8::encode_utf8(port.name@))
}

/// Whether one key comes before another.
pub open spec fn is_before(a: (bool, Seq<u8>), b: (bool, Seq<u8>)) -> bool {
    if a.0 != b.0 {
        !a.0
    } else {
        crate::order::precedes(a.1, b.1)
    }
}

/// The ports that are listed at all.
pub open spec fn shown(ports: Seq<Port>, all: bool) -> Seq<Port> {
    if all {
        ports
    } else {
        ports.filter(|port: Port| port.kind is Usb)
    }
}

/// The ports with a key.
pub open spec fn with_key(ports: Seq<Port>, k: (bool, Seq<u8>)) -> Seq<Port> {
    ports.filter(|port: Port| key(port) == k)
}

/// Whether some ports are others in order: ascending, and those with equal keys
/// as they were.
pub open spec fn is_arranged(out: Seq<Port>, ports: Seq<Port>) -> bool {
    &&& forall|i: int, j: int|
        0 <= i < j < out.len() ==> !is_before(key(#[trigger] out[j]), key(#[trigger] out[i]))
    &&& forall|k: (bool, Seq<u8>)| #[trigger] with_key(out, k) == with_key(ports, k)
}

/// Of two keys one comes before the other, or they are equal.
proof fn lemma_keys(a: (bool, Seq<u8>), b: (bool, Seq<u8>), c: (bool, Seq<u8>))
    ensures
        is_before(a, b) ==> !is_before(b, a) && a != b,
        !is_before(a, b) && !is_before(b, a) ==> a == b,
        !is_before(b, a) && is_before(b, c) ==> is_before(a, c),
        is_before(a, b) && !is_before(c, b) ==> is_before(a, c),
{
    crate::order::order_is_total(a.1, b.1);
    crate::order::order_is_total(b.1, c.1);
    if crate::order::precedes(a.1, b.1) && crate::order::precedes(b.1, c.1) {
        crate::order::order_is_transitive(a.1, b.1, c.1);
    }
}

/// Nothing has a key that no port has.
proof fn lemma_without(ports: Seq<Port>, k: (bool, Seq<u8>))
    requires
        forall|i: int| 0 <= i < ports.len() ==> key(#[trigger] ports[i]) != k,
    ensures
        with_key(ports, k) == Seq::<Port>::empty(),
    decreases ports.len(),
{
    reveal(Seq::filter);
    if ports.len() > 0 {
        lemma_without(ports.drop_last(), k);
    }
}

/// A port that is put behind those that do not come after it stays in order.
proof fn lemma_insert(out: Seq<Port>, ports: Seq<Port>, port: Port, at: int)
    requires
        is_arranged(out, ports),
        0 <= at <= out.len(),
        forall|i: int| 0 <= i < at ==> !is_before(key(port), key(#[trigger] out[i])),
        forall|i: int| at <= i < out.len() ==> is_before(key(port), key(#[trigger] out[i])),
    ensures
        is_arranged(out.insert(at, port), ports.push(port)),
{
    let more = out.insert(at, port);
    let head = out.take(at);
    let tail = out.skip(at);
    assert(more =~= head + seq![port] + tail);
    assert(out =~= head + tail);
    assert forall|i: int, j: int| 0 <= i < j < more.len() implies !is_before(
        key(#[trigger] more[j]),
        key(#[trigger] more[i]),
    ) by {
        if i == at {
            assert(more[j] == out[j - 1]);
            lemma_keys(key(port), key(out[j - 1]), key(port));
        } else if j == at {
            assert(more[i] == out[i]);
        } else {
            let x = if i < at {
                i
            } else {
                i - 1
            };
            let y = if j < at {
                j
            } else {
                j - 1
            };
            assert(more[i] == out[x] && more[j] == out[y]);
        }
    }
    assert forall|k: (bool, Seq<u8>)| #[trigger] with_key(more, k) == with_key(
        ports.push(port),
        k,
    ) by {
        let pred = |p: Port| key(p) == k;
        Seq::filter_distributes_over_add(head + seq![port], tail, pred);
        Seq::filter_distributes_over_add(head, seq![port], pred);
        Seq::filter_distributes_over_add(head, tail, pred);
        Seq::filter_distributes_over_add(ports, seq![port], pred);
        assert(ports.push(port) =~= ports + seq![port]);
        assert(with_key(out, k) == with_key(ports, k));
        if key(port) == k {
            assert forall|i: int| 0 <= i < tail.len() implies key(#[trigger] tail[i]) != k by {
                assert(tail[i] == out[at + i]);
                lemma_keys(key(port), key(out[at + i]), key(port));
            }
            lemma_without(tail, k);
            assert(with_key(more, k) =~= with_key(head, k) + with_key(seq![port], k));
            assert(with_key(out, k) =~= with_key(head, k));
        } else {
            lemma_without(seq![port], k);
            assert(with_key(more, k) =~= with_key(head, k) + with_key(tail, k));
            assert(with_key(ports.push(port), k) =~= with_key(ports, k));
        }
    }
}

/// Whether one port comes before another.
fn goes_before(a: &Port, b: &Port) -> (res: bool)
    ensures
        res == is_before(key(*a), key(*b)),
{
    let usb_a = matches!(a.kind, PortKind::Usb { .. });
    let usb_b = matches!(b.kind, PortKind::Usb { .. });
    if usb_a != usb_b {
        usb_a
    } else {
        crate::order::comes_before(a.name.as_str().as_bytes(), b.name.as_str().as_bytes())
    }
}

/// The ports to list, in order. With all of them shown, the handful of
/// interesting ones would otherwise be buried.
pub fn arrange(ports: Vec<Port>, all: bool) -> (res: Vec<Port>)
    ensures
        is_arranged(res@, shown(ports@, all)),
{
    let ghost given = ports@;
    let ghost usb = |port: Port| port.kind is Usb;
    let mut rest: Vec<Port> = ports;
    let mut out: Vec<Port> = Vec::new();
    proof {
        reveal(Seq::filter);
        assert(given.take(0) =~= Seq::<Port>::empty());
        assert(given.skip(0) =~= given);
        assert(shown(given.take(0), all) =~= Seq::<Port>::empty());
    }
    let ghost mut done: int = 0;
    while rest.len() > 0
        invariant
            0 <= done <= given.len(),
            rest@ == given.skip(done),
            usb == (|port: Port| port.kind is Usb),
            is_arranged(out@, shown(given.take(done), all)),
        decreases rest@.len(),
    {
        let port = rest.remove(0);
        proof {
            assert(rest@ =~= given.skip(done + 1));
            assert(given.take(done + 1) =~= given.take(done).push(given[done]));
            assert(given.take(done + 1).drop_last() =~= given.take(done));
            reveal(Seq::filter);
            done = done + 1;
        }
        let usb_port = matches!(port.kind, PortKind::Usb { .. });
        if all || usb_port {
            let mut at: usize = out.len();
            while at > 0 && goes_before(&port, &out[at - 1])
                invariant
                    at <= out@.len(),
                    forall|i: int|
                        at <= i < out@.len() ==> is_before(key(port), key(#[trigger] out@[i])),
                decreases at,
            {
                at -= 1;
            }
            proof {
                assert forall|i: int| 0 <= i < at implies !is_before(
                    key(port),
                    key(#[trigger] out@[i]),
                ) by {
                    if i < at - 1 {
                        assert(!is_before(key(out@[at - 1]), key(out@[i])));
                        lemma_keys(key(port), key(out@[i]), key(out@[at - 1]));
                    }
                }
                lemma_insert(out@, shown(given.take(done - 1), all), port, at as int);
            }
            out.insert(at, port);
        }
    }
    proof {
        assert(given.take(done) =~= given);
    }
    out
}

// --- Listing them ----------------------------------------------------------------

/// How wide the column of names is.
pub open spec fn name_width(ports: Seq<Port>) -> nat
    decreases ports.len(),
{
    if ports.len() == 0 {
        0
    } else {
        let others = name_width(ports.drop_last());
        let last = vstd::utf8::encode_utf8(ports.last().name@).len();
        if last > others {
            last
        } else {
            others
        }
    }
}

/// The line for a port.
pub open spec fn port_text(port: Port, width: nat) -> Seq<u8> {
    crate::table::left(port.name@, width) + vstd::utf8::encode_utf8("  "@) + description(port.kind)
}

/// The lines for some ports.
pub fn port_lines(ports: &Vec<Port>) -> (res: Vec<String>)
    ensures
        res@.len() == ports@.len(),
        forall|i: int|
            0 <= i < ports@.len() ==> vstd::utf8::encode_utf8((#[trigger] res@[i])@) == port_text(
                ports@[i],
                name_width(ports@),
            ),
{
    let mut width: usize = 0;
    let mut at: usize = 0;
    while at < ports.len()
        invariant
            at <= ports@.len(),
            width == name_width(ports@.take(at as int)),
        decreases ports@.len() - at,
    {
        proof {
            assert(ports@.take(at + 1).drop_last() =~= ports@.take(at as int));
        }
        let len: usize = ports[at].name.as_str().as_bytes().len();
        if len > width {
            width = len;
        }
        at += 1;
    }
    proof {
        assert(ports@.take(at as int) =~= ports@);
    }
    let mut lines: Vec<String> = Vec::new();
    let mut at: usize = 0;
    while at < ports.len()
        invariant
            at <= ports@.len(),
            width == name_width(ports@),
            lines@.len() == at,
            forall|i: int|
                0 <= i < at ==> vstd::utf8::encode_utf8((#[trigger] lines@[i])@) == port_text(
                    ports@[i],
                    width as nat,
                ),
        decreases ports@.len() - at,
    {
        let port = &ports[at];
        let mut line: Vec<u8> = Vec::new();
        crate::table::push_left(&mut line, port.name.as_str(), width);
        crate::text::push_text(&mut line, "  ");
        push_description(&mut line, &port.kind);
        proof {
            assert(line@ =~= port_text(*port, width as nat));
        }
        lines.push(crate::text::to_text(&line));
        at += 1;
    }
    lines
}

/// What to say when there is nothing to list.
pub fn nothing_found(all: bool) -> (res: &'static str)
    ensures
        res@ == if all {
            "No serial ports found."@
        } else {
            "No USB serial ports found; pass --all to list every port."@
        },
{
    if all {
        "No serial ports found."
    } else {
        "No USB serial ports found; pass --all to list every port."
    }
}

} // verus!
