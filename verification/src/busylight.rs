//! The desk light, driven from the timer that already knows the answer.
//!
//! The device is a small board speaking a handful of words over a serial
//! port: BUSY, AVAILABLE, RINGING, OFFLINE, OFF. What colour it should show
//! is a rendering of the timer's state; which ports are worth trying is a
//! rule about port names. What it says back arrives as a stream of lines,
//! some volunteered, which are read and matched here; the port itself is the
//! caller's.

use vstd::prelude::*;

use crate::model::SessionKind;
use crate::text::{
    ascii_uppercase, chars_of, concat, contains, contains_seq, eq_ignore_case, has_prefix,
    lemma_split_joined, lemma_split_on_nonempty, same_ignoring_ascii_case, split_on, starts_with,
    str_eq, string_of, to_ascii_upper, trim, trimmed,
};

verus! {

/// The colour the light shows, in the firmware's own words.
#[derive(Debug, Clone, Copy, PartialEq, Eq, Structural)]
pub enum Mode {
    Busy,
    Available,
    Ringing,
    Offline,
    Off,
}

/// The word the firmware is sent for a mode.
pub open spec fn command_of(m: Mode) -> Seq<char> {
    match m {
        Mode::Busy => "BUSY"@,
        Mode::Available => "AVAILABLE"@,
        Mode::Ringing => "RINGING"@,
        Mode::Offline => "OFFLINE"@,
        Mode::Off => "OFF"@,
    }
}

/// The menu bar dot for a mode.
pub open spec fn dot_of(m: Mode) -> Seq<char> {
    match m {
        Mode::Busy => "🔴"@,
        Mode::Available => "🟢"@,
        Mode::Ringing => "🟠"@,
        Mode::Offline => "⚪"@,
        Mode::Off => "⚫"@,
    }
}

/// The mode a word names: trimmed and read without regard to ASCII case.
pub open spec fn mode_named(word: Seq<char>) -> Option<Mode> {
    let w = ascii_uppercase(trim(word));
    if w == "BUSY"@ {
        Some(Mode::Busy)
    } else if w == "AVAILABLE"@ {
        Some(Mode::Available)
    } else if w == "RINGING"@ {
        Some(Mode::Ringing)
    } else if w == "OFFLINE"@ {
        Some(Mode::Offline)
    } else if w == "OFF"@ {
        Some(Mode::Off)
    } else {
        None
    }
}

impl Mode {
    /// The word to send the firmware.
    pub fn command(self) -> (r: &'static str)
        ensures
            r@ == command_of(self),
    {
        match self {
            Mode::Busy => "BUSY",
            Mode::Available => "AVAILABLE",
            Mode::Ringing => "RINGING",
            Mode::Offline => "OFFLINE",
            Mode::Off => "OFF",
        }
    }

    /// The menu bar dot.
    pub fn dot(self) -> (r: &'static str)
        ensures
            r@ == dot_of(self),
    {
        match self {
            Mode::Busy => "🔴",
            Mode::Available => "🟢",
            Mode::Ringing => "🟠",
            Mode::Offline => "⚪",
            Mode::Off => "⚫",
        }
    }

    /// Read a firmware word back into a mode.
    pub fn parse(word: &str) -> (r: Option<Mode>)
        ensures
            r == mode_named(word@),
    {
        let v = chars_of(word);
        let t = trimmed(v.as_slice());
        let w = to_ascii_upper(t.as_slice());
        let s = crate::text::string_of(w.as_slice());
        if str_eq(s.as_str(), "BUSY") {
            Some(Mode::Busy)
        } else if str_eq(s.as_str(), "AVAILABLE") {
            Some(Mode::Available)
        } else if str_eq(s.as_str(), "RINGING") {
            Some(Mode::Ringing)
        } else if str_eq(s.as_str(), "OFFLINE") {
            Some(Mode::Offline)
        } else if str_eq(s.as_str(), "OFF") {
            Some(Mode::Off)
        } else {
            None
        }
    }
}

/// Reading a mode's own word gives the mode back.
pub proof fn lemma_command_round_trip(m: Mode)
    ensures
        mode_named(command_of(m)) == Some(m),
{
    reveal_strlit("BUSY");
    reveal_strlit("AVAILABLE");
    reveal_strlit("RINGING");
    reveal_strlit("OFFLINE");
    reveal_strlit("OFF");
    let c = command_of(m);
    assert(c.len() > 0);
    assert(!crate::text::is_space(c[0]) && !crate::text::is_space(c.last()));
    crate::text::lemma_trim_unspaced(c);
    assert(ascii_uppercase(c) =~= c);
    assert(trim(c) == c);
    assert(ascii_uppercase(trim(c)) == c);
    assert("BUSY"@.len() == 4 && "AVAILABLE"@.len() == 9 && "RINGING"@.len() == 7 && "OFFLINE"@.len() == 7
        && "OFF"@.len() == 3);
    assert("RINGING"@[0] != "OFFLINE"@[0]);
}

/// What the rest of the app can see about the light.
#[derive(Debug)]
pub struct LightStatus {
    pub connected: bool,
    /// The port in use, or the one being looked for.
    pub port: Option<String>,
    pub mode: Option<Mode>,
    /// Plain words for the menu.
    pub message: String,
    /// Whether the light follows the timer on its own.
    pub follow_timer: bool,
    pub ports: Vec<String>,
}

/// The dot for the menu bar: hollow while disconnected, the mode's colour
/// when one is set, blue when connected with none.
pub open spec fn status_dot(connected: bool, mode: Option<Mode>) -> Seq<char> {
    if !connected {
        "◌"@
    } else {
        match mode {
            Some(m) => dot_of(m),
            None => "🔵"@,
        }
    }
}

/// The dot for the menu bar, including the states that are not a colour.
pub fn dot_for(status: &LightStatus) -> (r: &'static str)
    ensures
        r@ == status_dot(status.connected, status.mode),
{
    if !status.connected {
        return "◌";
    }
    match status.mode {
        Some(m) => m.dot(),
        None => "🔵",
    }
}

/// How the light is set up.
#[derive(Debug)]
pub struct LightSettings {
    /// Port to prefer; `None` means find one.
    pub port: Option<String>,
    /// Whether starting a session changes the colour.
    pub follow_timer: bool,
    /// Whether to look for a device at all. Off by default: an app that
    /// scans serial ports uninvited is rude.
    pub enabled: bool,
}

impl Default for LightSettings {
    fn default() -> (r: LightSettings)
        ensures
            r.port is None,
            !r.follow_timer,
            !r.enabled,
    {
        LightSettings { port: None, follow_timer: false, enabled: false }
    }
}

/// The colour a timer state calls for. Idle is green rather than off: an
/// unlit lamp says "broken" as readily as "free".
pub open spec fn mode_for_spec(running: bool, paused: bool, kind: SessionKind) -> Mode {
    if !running || paused {
        Mode::Available
    } else {
        match kind {
            SessionKind::Focus | SessionKind::Meeting => Mode::Busy,
            SessionKind::Break => Mode::Available,
        }
    }
}

/// The colour a timer state calls for.
pub fn mode_for(running: bool, paused: bool, kind: SessionKind) -> (r: Mode)
    ensures
        r == mode_for_spec(running, paused, kind),
{
    if !running || paused {
        return Mode::Available;
    }
    match kind {
        SessionKind::Focus | SessionKind::Meeting => Mode::Busy,
        SessionKind::Break => Mode::Available,
    }
}

// ---------------------------------------------------------------------------
// ports
// ---------------------------------------------------------------------------

/// Whether a port name looks like a USB serial adapter.
pub open spec fn device_like(name: Seq<char>) -> bool {
    contains_seq(name, "usbmodem"@) || contains_seq(name, "usbserial"@)
}

/// Whether a port is the `tty` half that blocks on open until carrier,
/// which for this device is never.
pub open spec fn tty_half(name: Seq<char>) -> bool {
    has_prefix(name, "/dev/tty."@)
}

/// Whether a port name looks like a USB serial adapter.
pub fn looks_like_a_device(name: &str) -> (r: bool)
    ensures
        r == device_like(name@),
{
    let v = chars_of(name);
    let a = chars_of("usbmodem");
    let b = chars_of("usbserial");
    contains(v.as_slice(), a.as_slice()) || contains(v.as_slice(), b.as_slice())
}

/// The port names that are not `tty` halves, in order.
pub open spec fn untty(names: Seq<Seq<char>>) -> Seq<Seq<char>>
    decreases names.len(),
{
    if names.len() == 0 {
        Seq::empty()
    } else if tty_half(names.last()) {
        untty(names.drop_last())
    } else {
        untty(names.drop_last()).push(names.last())
    }
}

/// The names that look like devices (`wanted`) or do not (`!wanted`), in order.
pub open spec fn device_names(names: Seq<Seq<char>>, wanted: bool) -> Seq<Seq<char>>
    decreases names.len(),
{
    if names.len() == 0 {
        Seq::empty()
    } else if device_like(names.last()) == wanted {
        device_names(names.drop_last(), wanted).push(names.last())
    } else {
        device_names(names.drop_last(), wanted)
    }
}

/// The ports offered for choosing: the `tty` halves dropped, devices first,
/// each group in the order the system gave.
pub open spec fn offered(names: Seq<Seq<char>>) -> Seq<Seq<char>> {
    device_names(untty(names), true) + device_names(untty(names), false)
}

proof fn lemma_untty(names: Seq<Seq<char>>)
    ensures
        forall|i: int| 0 <= i < untty(names).len() ==> !tty_half(#[trigger] untty(names)[i]),
    decreases names.len(),
{
    if names.len() > 0 {
        lemma_untty(names.drop_last());
        let p = untty(names.drop_last());
        let u = untty(names);
        assert forall|i: int| 0 <= i < u.len() implies !tty_half(#[trigger] u[i]) by {
            if i < p.len() {
                assert(u[i] == p[i]);
            }
        }
    }
}

proof fn lemma_device_names(names: Seq<Seq<char>>, wanted: bool)
    ensures
        forall|i: int| 0 <= i < device_names(names, wanted).len() ==> exists|j: int|
            0 <= j < names.len() && names[j] == #[trigger] device_names(names, wanted)[i],
    decreases names.len(),
{
    if names.len() > 0 {
        lemma_device_names(names.drop_last(), wanted);
        let d = device_names(names, wanted);
        let p = device_names(names.drop_last(), wanted);
        assert forall|i: int| 0 <= i < d.len() implies exists|j: int| 0 <= j < names.len() && names[j] == #[trigger] d[i] by {
            if i < p.len() {
                assert(d[i] == p[i]);
                let j = choose|j: int| 0 <= j < names.drop_last().len() && names.drop_last()[j] == p[i];
                assert(names[j] == d[i]);
            } else {
                assert(names[names.len() - 1] == d[i]);
            }
        }
    }
}

fn starts_with_tty(name: &str) -> (r: bool)
    ensures
        r == tty_half(name@),
{
    let v = chars_of(name);
    let p = chars_of("/dev/tty.");
    crate::text::starts_with(v.as_slice(), p.as_slice())
}

/// Order port names for choosing: the `tty` halves dropped, devices first.
pub fn ports_to_offer(names: Vec<String>) -> (r: Vec<String>)
    ensures
        r.deep_view() == offered(names.deep_view()),
{
    let ghost all = names.deep_view();
    let mut devices: Vec<String> = Vec::new();
    let mut others: Vec<String> = Vec::new();
    let ghost mut kept: Seq<Seq<char>> = Seq::empty();
    let mut i: usize = 0;
    while i < names.len()
        invariant
            all == names.deep_view(),
            i <= names@.len(),
            kept == untty(all.take(i as int)),
            devices.deep_view() == device_names(kept, true),
            others.deep_view() == device_names(kept, false),
        decreases names@.len() - i,
    {
        let n = &names[i];
        proof {
            assert(all.take(i + 1).drop_last() =~= all.take(i as int));
            assert(all.take(i + 1).last() == n@);
        }
        if !starts_with_tty(n.as_str()) {
            let ghost nk = kept.push(n@);
            proof {
                assert(nk.drop_last() =~= kept);
                assert(nk.last() == n@);
            }
            if looks_like_a_device(n.as_str()) {
                let ghost before = devices.deep_view();
                devices.push(n.clone());
                proof {
                    assert(devices.deep_view() =~= before.push(n@));
                }
            } else {
                let ghost before = others.deep_view();
                others.push(n.clone());
                proof {
                    assert(others.deep_view() =~= before.push(n@));
                }
            }
            proof {
                kept = nk;
            }
        }
        i = i + 1;
    }
    proof {
        assert(all.take(i as int) =~= all);
    }
    let ghost d = devices.deep_view();
    let ghost o = others.deep_view();
    let mut r = devices;
    let mut k: usize = 0;
    while k < others.len()
        invariant
            k <= others@.len(),
            o == others.deep_view(),
            r.deep_view() == d + o.take(k as int),
        decreases others@.len() - k,
    {
        let ghost before = r.deep_view();
        proof {
            assert(o[k as int] == others@[k as int]@);
        }
        r.push(others[k].clone());
        proof {
            assert(r.deep_view() =~= before.push(o[k as int]));
        }
        k = k + 1;
        proof {
            assert(r.deep_view() =~= d + o.take(k as int));
        }
    }
    proof {
        assert(o.take(k as int) =~= o);
    }
    r
}

/// Serial ports a person might reasonably pick, devices first, from the
/// names the system reports. The `tty` half of each device is left out:
/// opening it hangs rather than fails.
pub fn available_ports(names: Vec<String>) -> (r: Vec<String>)
    ensures
        r.deep_view() == offered(names.deep_view()),
        forall|i: int| 0 <= i < r.deep_view().len() ==> !tty_half(#[trigger] r.deep_view()[i]),
{
    proof {
        lemma_offered_no_tty(names.deep_view());
    }
    ports_to_offer(names)
}

/// Picking the devices out of two runs of names picks them out of each.
proof fn lemma_device_names_append(a: Seq<Seq<char>>, b: Seq<Seq<char>>, wanted: bool)
    ensures
        device_names(a + b, wanted) == device_names(a, wanted) + device_names(b, wanted),
    decreases b.len(),
{
    if b.len() == 0 {
        assert(a + b =~= a);
        assert(device_names(a, wanted) + device_names(b, wanted) =~= device_names(a, wanted));
    } else {
        lemma_device_names_append(a, b.drop_last(), wanted);
        assert((a + b).drop_last() =~= a + b.drop_last());
        assert((a + b).last() == b.last());
        if device_like(b.last()) == wanted {
            assert(device_names(a + b, wanted) =~= device_names(a, wanted) + device_names(b, wanted));
        } else {
            assert(device_names(a + b, wanted) =~= device_names(a, wanted) + device_names(b, wanted));
        }
    }
}

/// Picking the devices again keeps the devices and drops the others.
proof fn lemma_device_names_again(x: Seq<Seq<char>>)
    ensures
        device_names(device_names(x, true), true) == device_names(x, true),
        device_names(device_names(x, false), true) == Seq::<Seq<char>>::empty(),
    decreases x.len(),
{
    if x.len() > 0 {
        lemma_device_names_again(x.drop_last());
        let dt = device_names(x, true);
        let df = device_names(x, false);
        if device_like(x.last()) {
            assert(dt.drop_last() =~= device_names(x.drop_last(), true));
            assert(df =~= device_names(x.drop_last(), false));
        } else {
            assert(df.drop_last() =~= device_names(x.drop_last(), false));
            assert(dt =~= device_names(x.drop_last(), true));
        }
    }
}

proof fn lemma_offered_no_tty(names: Seq<Seq<char>>)
    ensures
        forall|i: int| 0 <= i < offered(names).len() ==> !tty_half(#[trigger] offered(names)[i]),
{
    let kept = untty(names);
    lemma_untty(names);
    lemma_device_names(kept, true);
    lemma_device_names(kept, false);
    let a = device_names(kept, true);
    let b = device_names(kept, false);
    assert forall|i: int| 0 <= i < (a + b).len() implies !tty_half(#[trigger] (a + b)[i]) by {
        if i < a.len() {
            let j = choose|j: int| 0 <= j < kept.len() && kept[j] == a[i];
        } else {
            let j = choose|j: int| 0 <= j < kept.len() && kept[j] == b[i - a.len()];
        }
    }
}

/// Ports worth trying when nobody has said which, from the names the
/// system reports: USB serial adapters only, in the order reported.
pub fn detectable_ports(names: Vec<String>) -> (r: Vec<String>)
    ensures
        r.deep_view() == device_names(untty(names.deep_view()), true),
        forall|i: int| 0 <= i < r.deep_view().len() ==> device_like(#[trigger] r.deep_view()[i]) && !tty_half(r.deep_view()[i]),
{
    let ghost reported = names.deep_view();
    let all = available_ports(names);
    let ghost a = all.deep_view();
    let mut r: Vec<String> = Vec::new();
    let mut i: usize = 0;
    while i < all.len()
        invariant
            i <= all@.len(),
            a == all.deep_view(),
            forall|j: int| 0 <= j < all.deep_view().len() ==> !tty_half(#[trigger] all.deep_view()[j]),
            forall|j: int| 0 <= j < r.deep_view().len() ==> device_like(#[trigger] r.deep_view()[j]) && !tty_half(r.deep_view()[j]),
            r.deep_view() == device_names(a.take(i as int), true),
        decreases all@.len() - i,
    {
        proof {
            assert(a.take(i + 1).drop_last() =~= a.take(i as int));
            assert(a.take(i + 1).last() == all@[i as int]@);
        }
        if looks_like_a_device(all[i].as_str()) {
            proof {
                assert(all.deep_view()[i as int] == all@[i as int]@);
            }
            let ghost before = r.deep_view();
            r.push(all[i].clone());
            proof {
                assert(r.deep_view() =~= before.push(all@[i as int]@));
            }
        }
        i = i + 1;
    }
    proof {
        assert(a.take(i as int) =~= a);
        let u = untty(reported);
        lemma_device_names_append(device_names(u, true), device_names(u, false), true);
        lemma_device_names_again(u);
        assert(device_names(u, true) + Seq::<Seq<char>>::empty() =~= device_names(u, true));
        assert(device_names(untty(reported), true) == r.deep_view());
    }
    r
}

// ---------------------------------------------------------------------------
// talking to the device
// ---------------------------------------------------------------------------

/// The line that sets a mode: its word and a newline.
pub fn command_line(mode: Mode) -> (r: String)
    ensures
        r@ == command_of(mode) + seq!['\n'],
{
    let word = chars_of(mode.command());
    let newline = chars_of("\n");
    proof {
        reveal_strlit("\n");
    }
    string_of(concat(word.as_slice(), newline.as_slice()).as_slice())
}

/// What a reader listens for from the device.
#[derive(Debug, Clone, Copy, PartialEq, Eq, Structural)]
pub enum Awaited {
    /// That it has just started: `READY`, or a `STATE:` line.
    Banner,
    /// The answer to `PING`.
    Pong,
    /// That it took a command: `OK` and the command's word.
    Ack(Mode),
}

/// Whether a line, already trimmed, is the one awaited. Case does not
/// matter, except in the `STATE:` prefix.
pub open spec fn hears(awaited: Awaited, line: Seq<char>) -> bool {
    match awaited {
        Awaited::Banner => same_ignoring_ascii_case(line, "READY"@) || has_prefix(line, "STATE:"@),
        Awaited::Pong => same_ignoring_ascii_case(line, "PONG"@),
        Awaited::Ack(m) => same_ignoring_ascii_case(line, "OK "@ + command_of(m)),
    }
}

pub fn heard(awaited: Awaited, line: &[char]) -> (r: bool)
    ensures
        r == hears(awaited, line@),
{
    match awaited {
        Awaited::Banner => {
            let ready = chars_of("READY");
            let state = chars_of("STATE:");
            eq_ignore_case(line, ready.as_slice()) || starts_with(line, state.as_slice())
        },
        Awaited::Pong => {
            let pong = chars_of("PONG");
            eq_ignore_case(line, pong.as_slice())
        },
        Awaited::Ack(m) => {
            let ok = chars_of("OK ");
            let word = chars_of(m.command());
            let expected = concat(ok.as_slice(), word.as_slice());
            eq_ignore_case(line, expected.as_slice())
        },
    }
}

/// Past this many bytes, an unfinished line is given up on: a device
/// spewing without newlines must not grow the buffer forever.
pub const PENDING_LIMIT: usize = 4096;

/// The bytes a character takes in UTF-8.
pub open spec fn utf8_width(c: char) -> nat {
    if (c as u32) < 0x80 {
        1
    } else if (c as u32) < 0x800 {
        2
    } else if (c as u32) < 0x1_0000 {
        3
    } else {
        4
    }
}

/// `String::len`: the bytes a text takes in UTF-8.
pub open spec fn utf8_len(s: Seq<char>) -> nat
    decreases s.len(),
{
    if s.len() == 0 {
        0
    } else {
        utf8_len(s.drop_last()) + utf8_width(s.last())
    }
}

/// The lines a text finishes: each piece that a newline ends.
pub open spec fn finished_lines(text: Seq<char>) -> Seq<Seq<char>> {
    split_on(text, '\n').drop_last()
}

/// What comes after the last newline.
pub open spec fn unfinished(text: Seq<char>) -> Seq<char> {
    split_on(text, '\n').last()
}

/// Whether one of the lines a text finishes, trimmed, is the one awaited.
pub open spec fn heard_in(awaited: Awaited, text: Seq<char>) -> bool {
    exists|i: int|
        0 <= i < finished_lines(text).len() && hears(awaited, trim(#[trigger] finished_lines(text)[i]))
}

/// What a reader keeps for next time: nothing once it has heard what it
/// waited for, else the unfinished line, unless that has grown past the limit.
pub open spec fn kept(awaited: Awaited, text: Seq<char>) -> Seq<char> {
    if heard_in(awaited, text) || utf8_len(unfinished(text)) > PENDING_LIMIT {
        Seq::empty()
    } else {
        unfinished(text)
    }
}

fn utf8_length(v: &[char]) -> (r: u128)
    ensures
        r == utf8_len(v@),
{
    let mut n: u128 = 0;
    let mut i: usize = 0;
    while i < v.len()
        invariant
            i <= v@.len(),
            n == utf8_len(v@.take(i as int)),
            n <= 4 * i,
        decreases v@.len() - i,
    {
        proof {
            assert(v@.take(i + 1).drop_last() =~= v@.take(i as int));
        }
        let c = v[i] as u32;
        let w: u128 = if c < 0x80 {
            1
        } else if c < 0x800 {
            2
        } else if c < 0x1_0000 {
            3
        } else {
            4
        };
        n = n + w;
        i = i + 1;
    }
    proof {
        assert(v@.take(i as int) =~= v@);
    }
    n
}

/// Take in what the device sent after what was pending, line by line:
/// whether a finished line, trimmed, is the one awaited. `pending` is left
/// holding what to carry into the next read.
pub fn take_in(pending: &mut String, incoming: &str, awaited: Awaited) -> (r: bool)
    ensures
        r == heard_in(awaited, old(pending)@ + incoming@),
        final(pending)@ == kept(awaited, old(pending)@ + incoming@),
{
    let ghost text = old(pending)@ + incoming@;
    let before = chars_of(pending.as_str());
    let after = chars_of(incoming);
    let all = concat(before.as_slice(), after.as_slice());
    let mut line: Vec<char> = Vec::new();
    let ghost mut done: Seq<Seq<char>> = Seq::empty();
    let mut i: usize = 0;
    while i < all.len()
        invariant
            all@ == text,
            text == old(pending)@ + incoming@,
            i <= all@.len(),
            split_on(text.take(i as int), '\n') == done.push(line@),
            forall|j: int| 0 <= j < done.len() ==> !hears(awaited, trim(#[trigger] done[j])),
        decreases all@.len() - i,
    {
        let c = all[i];
        proof {
            assert(text.take(i + 1).drop_last() =~= text.take(i as int));
            assert(text.take(i + 1).last() == c);
        }
        if c == '\n' {
            let t = trimmed(line.as_slice());
            if heard(awaited, t.as_slice()) {
                proof {
                    let rest = text.skip(i + 1);
                    assert(text =~= text.take(i as int) + seq!['\n'] + rest);
                    lemma_split_joined(text.take(i as int), rest, '\n');
                    lemma_split_on_nonempty(rest, '\n');
                    assert(split_on(text, '\n') =~= done.push(line@) + split_on(rest, '\n'));
                    assert(done.len() < finished_lines(text).len());
                    assert(finished_lines(text)[done.len() as int] == line@);
                    assert(hears(awaited, trim(finished_lines(text)[done.len() as int])));
                    assert(heard_in(awaited, text));
                }
                *pending = String::new();
                return true;
            }
            proof {
                done = done.push(line@);
            }
            line = Vec::new();
        } else {
            line.push(c);
        }
        i = i + 1;
    }
    proof {
        assert(text.take(i as int) =~= text);
        assert(finished_lines(text) =~= done);
        if heard_in(awaited, text) {
            let j = choose|j: int| 0 <= j < finished_lines(text).len() && hears(awaited, trim(#[trigger] finished_lines(text)[j]));
            assert(!hears(awaited, trim(done[j])));
        }
    }
    let size = utf8_length(line.as_slice());
    if size > PENDING_LIMIT as u128 {
        *pending = String::new();
    } else {
        *pending = string_of(line.as_slice());
    }
    false
}

/// The ports to try: the one asked for, whatever it looks like, or else
/// every reported port that looks like the device.
pub fn candidates(preferred: Option<&str>, names: Vec<String>) -> (r: Vec<String>)
    ensures
        preferred matches Some(p) ==> r.deep_view() == seq![p@],
        preferred is None ==> r.deep_view() == device_names(untty(names.deep_view()), true),
{
    match preferred {
        Some(p) => {
            let mut r: Vec<String> = Vec::new();
            r.push(p.to_owned());
            proof {
                assert(r.deep_view() =~= seq![p@]);
            }
            r
        },
        None => detectable_ports(names),
    }
}

// ---------------------------------------------------------------------------
// the light's menu
// ---------------------------------------------------------------------------

/// What a click in the light's own menu asks for.
#[derive(Debug, Clone, Copy, PartialEq, Eq, Structural)]
pub enum LightAction {
    /// Show this colour.
    Show(Mode),
    /// Turn following the timer on or off.
    ToggleFollow,
    /// Look for the device now.
    Reconnect,
}

/// The menu item ids and what each asks for.
pub open spec fn action_named(id: Seq<char>) -> Option<LightAction> {
    if id == "light-busy"@ {
        Some(LightAction::Show(Mode::Busy))
    } else if id == "light-available"@ {
        Some(LightAction::Show(Mode::Available))
    } else if id == "light-ringing"@ {
        Some(LightAction::Show(Mode::Ringing))
    } else if id == "light-offline"@ {
        Some(LightAction::Show(Mode::Offline))
    } else if id == "light-off"@ {
        Some(LightAction::Show(Mode::Off))
    } else if id == "light-follow"@ {
        Some(LightAction::ToggleFollow)
    } else if id == "light-reconnect"@ {
        Some(LightAction::Reconnect)
    } else {
        None
    }
}

/// What the menu item with this id asks for; `None` when the id is not one
/// of the light's.
pub fn light_action(id: &str) -> (r: Option<LightAction>)
    ensures
        r == action_named(id@),
{
    if str_eq(id, "light-busy") {
        Some(LightAction::Show(Mode::Busy))
    } else if str_eq(id, "light-available") {
        Some(LightAction::Show(Mode::Available))
    } else if str_eq(id, "light-ringing") {
        Some(LightAction::Show(Mode::Ringing))
    } else if str_eq(id, "light-offline") {
        Some(LightAction::Show(Mode::Offline))
    } else if str_eq(id, "light-off") {
        Some(LightAction::Show(Mode::Off))
    } else if str_eq(id, "light-follow") {
        Some(LightAction::ToggleFollow)
    } else if str_eq(id, "light-reconnect") {
        Some(LightAction::Reconnect)
    } else {
        None
    }
}

/// The settings after a click. Picking a colour by hand means that colour
/// is wanted, so the timer stops overwriting it; asking to look for the
/// device switches looking on.
pub fn settings_after(action: LightAction, settings: &LightSettings) -> (r: LightSettings)
    ensures
        r.port.deep_view() == settings.port.deep_view(),
        r.follow_timer == match action {
            LightAction::Show(_) => false,
            LightAction::ToggleFollow => !settings.follow_timer,
            LightAction::Reconnect => settings.follow_timer,
        },
        r.enabled == (settings.enabled || action == LightAction::Reconnect),
{
    let port = match &settings.port {
        Some(p) => Some(p.clone()),
        None => None,
    };
    match action {
        LightAction::Show(_) => LightSettings { port, follow_timer: false, enabled: settings.enabled },
        LightAction::ToggleFollow => LightSettings {
            port,
            follow_timer: !settings.follow_timer,
            enabled: settings.enabled,
        },
        LightAction::Reconnect => LightSettings { port, follow_timer: settings.follow_timer, enabled: true },
    }
}

/// Whether new settings let go of the device: looking was switched off.
pub fn lets_go(previous: &LightSettings, next: &LightSettings) -> (r: bool)
    ensures
        r == (previous.enabled && !next.enabled),
{
    previous.enabled && !next.enabled
}

} // verus!
