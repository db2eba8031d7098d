//! Reading X11 window properties: which replies are complete, how their
//! bytes become text, and which property changes matter to the tracker.

use vstd::prelude::*;
use crate::order::chars_of;
use crate::report::opt_text;
use crate::text::push_char;
use x11rb::protocol::xproto::AtomEnum;

verus! {

/// X11 property lengths are counted in four-byte units: at most 64 KiB.
pub const MAX_PROPERTY_UNITS: u32 = 16_384;

/// The predefined X11 atoms the tracker uses.
#[derive(Debug, Clone, Copy, PartialEq, Eq, Structural)]
pub enum PredefinedAtom {
    Any,
    Atom,
    Cardinal,
    String,
    Window,
    WmName,
    WmClass,
}

/// The protocol's number of a predefined atom.
pub open spec fn atom_number(atom: PredefinedAtom) -> u32 {
    match atom {
        PredefinedAtom::Any => 0,
        PredefinedAtom::Atom => 4,
        PredefinedAtom::Cardinal => 6,
        PredefinedAtom::String => 31,
        PredefinedAtom::Window => 33,
        PredefinedAtom::WmName => 39,
        PredefinedAtom::WmClass => 67,
    }
}

/// The number of a predefined atom, from `x11rb::protocol::xproto::AtomEnum`
/// (whose constants in the source are 0, 4, 6, 31, 33, 39 and 67).
#[verifier::external_body]
fn predefined_atom(atom: PredefinedAtom) -> (number: u32)
    ensures
        number == atom_number(atom),
{
    let value = match atom {
        PredefinedAtom::Any => AtomEnum::ANY,
        PredefinedAtom::Atom => AtomEnum::ATOM,
        PredefinedAtom::Cardinal => AtomEnum::CARDINAL,
        PredefinedAtom::String => AtomEnum::STRING,
        PredefinedAtom::Window => AtomEnum::WINDOW,
        PredefinedAtom::WmName => AtomEnum::WM_NAME,
        PredefinedAtom::WmClass => AtomEnum::WM_CLASS,
    };
    u32::from(value)
}

/// The part of a `GetProperty` reply the tracker reads.
#[derive(Debug, Clone, PartialEq, Eq)]
pub struct PropertyReply {
    pub format: u8,
    pub bytes_after: u32,
    pub value: Vec<u8>,
}

/// A reply is usable: it has the expected format, nothing was left unread,
/// and it is no longer than the requested number of four-byte units.
pub open spec fn property_complete(reply: PropertyReply, format: u8, units: u32) -> bool {
    reply.format == format && reply.bytes_after == 0 && reply.value@.len() <= units * 4
}

/// Keeps a reply only when it is complete (see `property_complete`).
pub fn valid_property(reply: PropertyReply, format: u8, units: u32) -> (valid: Option<PropertyReply>)
    ensures
        valid == if property_complete(reply, format, units) {
            Some(reply)
        } else {
            None::<PropertyReply>
        },
{
    let length = reply.value.len() as u64;
    if reply.format == format && reply.bytes_after == 0 && length <= (units as u64) * 4 {
        Some(reply)
    } else {
        None
    }
}

/// The format and length, in units, requested for a property of a type:
/// atom lists are 32-bit and long, a window or a cardinal is one 32-bit
/// value, anything else is 8-bit text.
pub open spec fn limits_for(property_type: u32) -> (u8, u32) {
    if property_type == atom_number(PredefinedAtom::Atom) {
        (32, MAX_PROPERTY_UNITS)
    } else if property_type == atom_number(PredefinedAtom::Window) || property_type == atom_number(
        PredefinedAtom::Cardinal,
    ) {
        (32, 1)
    } else {
        (8, MAX_PROPERTY_UNITS)
    }
}

/// The format and length requested for a property of a type.
pub fn property_limits(property_type: u32) -> (limits: (u8, u32))
    ensures
        limits == limits_for(property_type),
{
    if property_type == predefined_atom(PredefinedAtom::Atom) {
        (32, MAX_PROPERTY_UNITS)
    } else if property_type == predefined_atom(PredefinedAtom::Window) || property_type
        == predefined_atom(PredefinedAtom::Cardinal) {
        (32, 1)
    } else {
        (8, MAX_PROPERTY_UNITS)
    }
}

/// The text `String::from_utf8_lossy` makes of bytes: invalid sequences
/// become U+FFFD.
pub uninterp spec fn utf8_lossy(bytes: Seq<u8>) -> Seq<char>;

/// `String::from_utf8_lossy`, as an owned string. Its result is claimed to
/// be `utf8_lossy` of the bytes.
#[verifier::external_body]
fn lossy_text(bytes: &[u8]) -> (text: String)
    ensures
        text@ == utf8_lossy(bytes@),
{
    String::from_utf8_lossy(bytes).into_owned()
}

/// The text without its trailing NUL characters.
pub open spec fn trim_nuls(text: Seq<char>) -> Seq<char>
    decreases text.len(),
{
    if text.len() > 0 && text.last() == '\0' {
        trim_nuls(text.drop_last())
    } else {
        text
    }
}

/// The text of a property value: its bytes decoded, trailing NULs removed;
/// nothing when that leaves no text.
pub open spec fn decoded(bytes: Seq<u8>) -> Option<Seq<char>> {
    let text = trim_nuls(utf8_lossy(bytes));
    if text.len() == 0 {
        None
    } else {
        Some(text)
    }
}

/// Decodes the text of a property value (see `decoded`).
pub fn decode_text(bytes: &[u8]) -> (text: Option<String>)
    ensures
        opt_text(text) == decoded(bytes@),
{
    let full = lossy_text(bytes);
    let chars = chars_of(full.as_str());
    let ghost all = chars@;
    let mut cut: usize = chars.len();
    assert(all.take(all.len() as int) =~= all);
    while cut > 0 && chars[cut - 1] == '\0'
        invariant
            cut <= chars.len(),
            all == chars@,
            trim_nuls(all) == trim_nuls(all.take(cut as int)),
        decreases cut,
    {
        assert(all.take(cut as int).drop_last() =~= all.take(cut - 1));
        cut = cut - 1;
    }
    assert(trim_nuls(all.take(cut as int)) == all.take(cut as int));
    let mut out = String::new();
    let mut i: usize = 0;
    while i < cut
        invariant
            i <= cut,
            cut <= chars.len(),
            all == chars@,
            out@ == all.take(i as int),
        decreases cut - i,
    {
        push_char(&mut out, chars[i]);
        assert(all.take(i + 1) =~= all.take(i as int).push(all[i as int]));
        i = i + 1;
    }
    if cut == 0 {
        None
    } else {
        Some(out)
    }
}

/// The text of a property reply, if there is a reply (see `decoded`).
pub fn property_text(reply: Option<PropertyReply>) -> (text: Option<String>)
    ensures
        opt_text(text) == match reply {
            Some(r) => decoded(r.value@),
            None => None,
        },
{
    match reply {
        Some(r) => decode_text(r.value.as_slice()),
        None => None,
    }
}

/// The word of four bytes from `i` on, least significant byte first.
pub open spec fn little_endian_word(bytes: Seq<u8>, i: int) -> int {
    bytes[i] + 256 * bytes[i + 1] + 65536 * bytes[i + 2] + 16777216 * bytes[i + 3]
}

/// The word of four bytes from `i` on, most significant byte first.
pub open spec fn big_endian_word(bytes: Seq<u8>, i: int) -> int {
    bytes[i + 3] + 256 * bytes[i + 2] + 65536 * bytes[i + 1] + 16777216 * bytes[i]
}

/// `word` is the four bytes from `i` on read in the machine's byte order,
/// which is one of the two.
pub open spec fn native_word(word: u32, bytes: Seq<u8>, i: int) -> bool {
    word as int == little_endian_word(bytes, i) || word as int == big_endian_word(bytes, i)
}

/// `u32::from_ne_bytes`: the four bytes read in the target's native byte
/// order. Which order that is depends on the machine and is not claimed;
/// it is little or big endian.
#[verifier::external_body]
fn word_from_ne_bytes(b0: u8, b1: u8, b2: u8, b3: u8) -> (word: u32)
    ensures
        native_word(word, seq![b0, b1, b2, b3], 0),
{
    u32::from_ne_bytes([b0, b1, b2, b3])
}

/// The 32-bit values of a property reply, as X11 delivers them in the
/// client's byte order: nothing unless the format is 32, else one value per
/// whole four bytes (a trailing partial word is ignored).
pub fn values32(reply: &PropertyReply) -> (values: Option<Vec<u32>>)
    ensures
        (values is None) == (reply.format != 32),
        values matches Some(v) ==> {
            &&& v@.len() == reply.value@.len() / 4
            &&& forall|k: int| 0 <= k < v@.len() ==> native_word(#[trigger] v@[k], reply.value@, 4 * k)
        },
{
    if reply.format != 32 {
        return None;
    }
    let bytes = &reply.value;
    let mut out: Vec<u32> = Vec::new();
    let mut j: usize = 0;
    while bytes.len() - j >= 4
        invariant
            j <= bytes.len(),
            j == 4 * out@.len(),
            bytes@ == reply.value@,
            forall|k: int| 0 <= k < out@.len() ==> native_word(#[trigger] out@[k], bytes@, 4 * k),
        decreases bytes.len() - j,
    {
        let word = word_from_ne_bytes(bytes[j], bytes[j + 1], bytes[j + 2], bytes[j + 3]);
        assert(seq![bytes@[j as int], bytes@[j + 1], bytes@[j + 2], bytes@[j + 3]][0] == bytes@[j as int]);
        let ghost k = out@.len() as int;
        out.push(word);
        assert(native_word(out@[k], bytes@, 4 * k));
        j = j + 4;
    }
    assert(out@.len() == bytes@.len() / 4) by (nonlinear_arith)
        requires
            j == 4 * out@.len(),
            j <= bytes@.len(),
            bytes@.len() - j < 4,
    ;
    Some(out)
}

/// The first 32-bit value of a property reply: nothing unless the format
/// is 32 and a whole word is there.
pub fn first_value32(reply: &PropertyReply) -> (value: Option<u32>)
    ensures
        (value is None) == (reply.format != 32 || reply.value@.len() < 4),
        value matches Some(w) ==> native_word(w, reply.value@, 0),
{
    match values32(reply) {
        Some(v) => {
            if v.len() == 0 {
                None
            } else {
                Some(v[0])
            }
        },
        None => None,
    }
}

/// The pieces of a byte string between NUL bytes (`<[u8]>::split` on zero):
/// one more piece than there are NULs.
pub open spec fn nul_pieces(bytes: Seq<u8>) -> Seq<Seq<u8>>
    decreases bytes.len(),
{
    if bytes.len() == 0 {
        seq![Seq::empty()]
    } else {
        let before = nul_pieces(bytes.drop_last());
        if bytes.last() == 0 {
            before.push(Seq::empty())
        } else {
            before.update(before.len() - 1, before.last().push(bytes.last()))
        }
    }
}

proof fn lemma_pieces_nonempty(bytes: Seq<u8>)
    ensures
        nul_pieces(bytes).len() >= 1,
    decreases bytes.len(),
{
    if bytes.len() > 0 {
        lemma_pieces_nonempty(bytes.drop_last());
    }
}

/// The decoded texts of the pieces, skipping pieces that decode to nothing.
pub open spec fn decoded_pieces(pieces: Seq<Seq<u8>>) -> Seq<Seq<char>>
    decreases pieces.len(),
{
    if pieces.len() == 0 {
        Seq::empty()
    } else {
        let before = decoded_pieces(pieces.drop_last());
        match decoded(pieces.last()) {
            Some(t) => before.push(t),
            None => before,
        }
    }
}

/// The first and second text of a `WM_CLASS` value: instance and class.
pub open spec fn wm_class_parts(bytes: Seq<u8>) -> (Option<Seq<char>>, Option<Seq<char>>) {
    let texts = decoded_pieces(nul_pieces(bytes));
    (
        if texts.len() > 0 {
            Some(texts[0])
        } else {
            None
        },
        if texts.len() > 1 {
            Some(texts[1])
        } else {
            None
        },
    )
}

/// Splits a `WM_CLASS` value into instance and class (see `wm_class_parts`).
pub fn decode_wm_class(bytes: &[u8]) -> (parts: (Option<String>, Option<String>))
    ensures
        (opt_text(parts.0), opt_text(parts.1)) == wm_class_parts(bytes@),
{
    let ghost all = bytes@;
    let mut texts: Vec<String> = Vec::new();
    let mut piece: Vec<u8> = Vec::new();
    let mut i: usize = 0;
    proof {
        lemma_pieces_nonempty(all.take(0));
        assert(all.take(0) =~= Seq::<u8>::empty());
    }
    while i < bytes.len()
        invariant
            i <= bytes.len(),
            all == bytes@,
            nul_pieces(all.take(i as int)).len() >= 1,
            piece@ == nul_pieces(all.take(i as int)).last(),
            texts@.map_values(|t: String| t@) == decoded_pieces(
                nul_pieces(all.take(i as int)).drop_last(),
            ),
        decreases bytes.len() - i,
    {
        let ghost pieces = nul_pieces(all.take(i as int));
        assert(all.take(i + 1).drop_last() =~= all.take(i as int));
        proof {
            lemma_pieces_nonempty(all.take(i + 1));
        }
        if bytes[i] == 0 {
            let ghost before = texts@.map_values(|t: String| t@);
            let done = decode_text(piece.as_slice());
            match done {
                Some(t) => {
                    texts.push(t);
                },
                None => {},
            }
            assert(nul_pieces(all.take(i + 1)) == pieces.push(Seq::empty()));
            assert(nul_pieces(all.take(i + 1)).drop_last() =~= pieces);
            assert(pieces.drop_last().push(pieces.last()) =~= pieces);
            assert(texts@.map_values(|t: String| t@) =~= decoded_pieces(pieces));
            piece = Vec::new();
        } else {
            piece.push(bytes[i]);
            assert(nul_pieces(all.take(i + 1)).drop_last() =~= pieces.drop_last());
        }
        i = i + 1;
    }
    assert(all.take(bytes.len() as int) =~= all);
    let ghost pieces = nul_pieces(all);
    let last = decode_text(piece.as_slice());
    match last {
        Some(t) => {
            texts.push(t);
        },
        None => {},
    }
    assert(pieces.drop_last().push(pieces.last()) =~= pieces);
    assert(texts@.map_values(|t: String| t@) =~= decoded_pieces(pieces));
    let ghost tv = texts@.map_values(|t: String| t@);
    let first = if texts.len() > 0 {
        Some(texts[0].clone())
    } else {
        None
    };
    let second = if texts.len() > 1 {
        Some(texts[1].clone())
    } else {
        None
    };
    assert(texts.len() > 0 ==> tv[0] == texts@[0]@);
    assert(texts.len() > 1 ==> tv[1] == texts@[1]@);
    (first, second)
}

/// The X11 atoms the tracker interns at startup.
#[derive(Debug, Clone, Copy)]
pub struct Atoms {
    pub active_window: u32,
    pub supported: u32,
    pub supporting_wm_check: u32,
    pub net_wm_name: u32,
    pub utf8_string: u32,
    pub net_wm_pid: u32,
}

/// A property change that matters to the tracker.
#[derive(Debug, Clone, Copy, PartialEq, Eq, Structural)]
pub enum X11Event {
    ActiveWindowChanged,
    WindowTitleChanged { window_id: u32 },
}

/// What a `PropertyNotify` on `window` for `atom` means: the root's active
/// window changed, or a window's title (`_NET_WM_NAME` or `WM_NAME`)
/// changed; anything else is ignored.
pub open spec fn property_event(root: u32, atoms: Atoms, window: u32, atom: u32) -> Option<X11Event> {
    if window == root && atom == atoms.active_window {
        Some(X11Event::ActiveWindowChanged)
    } else if atom == atoms.net_wm_name || atom == atom_number(PredefinedAtom::WmName) {
        Some(X11Event::WindowTitleChanged { window_id: window })
    } else {
        None
    }
}

/// Classifies a `PropertyNotify` (see `property_event`).
pub fn classify_property_change(root: u32, atoms: &Atoms, window: u32, atom: u32) -> (event: Option<X11Event>)
    ensures
        event == property_event(root, *atoms, window, atom),
{
    if window == root && atom == atoms.active_window {
        Some(X11Event::ActiveWindowChanged)
    } else if atom == atoms.net_wm_name || atom == predefined_atom(PredefinedAtom::WmName) {
        Some(X11Event::WindowTitleChanged { window_id: window })
    } else {
        None
    }
}

/// A 32-bit property value that names a window or process: zero means none.
pub fn nonzero(value: Option<u32>) -> (kept: Option<u32>)
    ensures
        kept == match value {
            Some(v) => if v != 0 {
                Some(v)
            } else {
                None::<u32>
            },
            None => None,
        },
{
    match value {
        Some(v) => if v != 0 {
            Some(v)
        } else {
            None
        },
        None => None,
    }
}

/// The code of a character with ASCII letters folded to lower case.
pub open spec fn ascii_lower(c: char) -> u32 {
    if 'A' <= c <= 'Z' {
        (c as u32 + 32) as u32
    } else {
        c as u32
    }
}

/// The texts are equal when ASCII letters are compared without case
/// (`str::eq_ignore_ascii_case`).
pub open spec fn equal_ignoring_ascii_case(a: Seq<char>, b: Seq<char>) -> bool {
    a.len() == b.len() && forall|i: int| 0 <= i < a.len() ==> ascii_lower(#[trigger] a[i])
        == ascii_lower(b[i])
}

fn lower(c: char) -> (l: u32)
    ensures
        l == ascii_lower(c),
{
    if 'A' <= c && c <= 'Z' {
        (c as u32) + 32
    } else {
        c as u32
    }
}

/// Compares two texts ignoring the case of ASCII letters.
pub fn eq_ignore_ascii_case(a: &str, b: &str) -> (equal: bool)
    ensures
        equal == equal_ignoring_ascii_case(a@, b@),
{
    let x = chars_of(a);
    let y = chars_of(b);
    if x.len() != y.len() {
        return false;
    }
    let mut i: usize = 0;
    while i < x.len()
        invariant
            i <= x.len(),
            x.len() == y.len(),
            x@ == a@,
            y@ == b@,
            forall|k: int| 0 <= k < i ==> ascii_lower(#[trigger] a@[k]) == ascii_lower(b@[k]),
        decreases x.len() - i,
    {
        if lower(x[i]) != lower(y[i]) {
            return false;
        }
        i = i + 1;
    }
    true
}

/// The probe's warnings: a native Wayland session, and a window manager
/// that does not advertise `_NET_ACTIVE_WINDOW`.
pub open spec fn probe_warnings_spec(session_type: Seq<char>, active_window_supported: bool) -> Seq<Seq<char>> {
    (if equal_ignoring_ascii_case(session_type, "wayland"@) {
        seq!["native Wayland session detected; this tracker only sees X11/XWayland"@]
    } else {
        Seq::empty()
    }) + (if active_window_supported {
        Seq::empty()
    } else {
        seq!["window manager does not advertise _NET_ACTIVE_WINDOW"@]
    })
}

/// The problems the probe reports, in order.
pub fn probe_warnings(session_type: &str, active_window_supported: bool) -> (warnings: Vec<&'static str>)
    ensures
        warnings@.map_values(|w: &'static str| w@) == probe_warnings_spec(session_type@, active_window_supported),
{
    let mut warnings: Vec<&'static str> = Vec::new();
    if eq_ignore_ascii_case(session_type, "wayland") {
        warnings.push("native Wayland session detected; this tracker only sees X11/XWayland");
    }
    if !active_window_supported {
        warnings.push("window manager does not advertise _NET_ACTIVE_WINDOW");
    }
    assert(warnings@.map_values(|w: &'static str| w@) =~= probe_warnings_spec(session_type@, active_window_supported));
    warnings
}

/// The atom list advertises `atom`.
pub fn advertises(atoms: &Vec<u32>, atom: u32) -> (found: bool)
    ensures
        found == atoms@.contains(atom),
{
    let mut i: usize = 0;
    while i < atoms.len()
        invariant
            i <= atoms.len(),
            forall|k: int| 0 <= k < i ==> atoms@[k] != atom,
        decreases atoms.len() - i,
    {
        if atoms[i] == atom {
            return true;
        }
        i = i + 1;
    }
    false
}

} // verus!
