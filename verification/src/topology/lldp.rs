//! LLDP neighbour discovery (IEEE 802.1AB).
//!
//! A frame is a sequence of type-length-value triples. Chassis ID and Port ID
//! are mandatory, System Name is optional, the rest is passed over. Opening
//! the packet socket and waiting for frames is the caller's part.

use crate::number;
use crate::scan;
use crate::scan::CharClass;
use crate::sorting;
use crate::text;
use crate::textmap;
use crate::textmap::TextMap;
use vstd::prelude::*;
use vstd::slice::slice_subrange;
use vstd::utf8;

verus! {

/// The Ethernet type of LLDP frames.
pub const ETH_P_LLDP: u16 = 0x88cc;

/// What a chassis identifier is.
#[derive(Debug, Clone, Copy, PartialEq, Eq, Structural)]
pub enum ChassisIdKind {
    Mac,
    Name,
    Other,
}

/// A switch port that a host interface is wired to.
#[derive(Debug)]
pub struct LldpNeighbor {
    /// The host-side interface that received the frame.
    pub interface: String,
    /// Switch chassis identifier as a printable string: a MAC address as
    /// `aa:bb:cc:dd:ee:ff`, a host name, or hexadecimal digits.
    pub chassis_id: String,
    pub chassis_id_kind: ChassisIdKind,
    /// Switch-side port identifier: a name, a MAC address, or hexadecimal
    /// digits.
    pub port_id: String,
    /// The system name. Many switches do not advertise it.
    pub system_name: Option<String>,
}

/// The model of a neighbour.
#[verifier::ext_equal]
pub struct NeighborModel {
    pub interface: Seq<char>,
    pub chassis_id: Seq<char>,
    pub chassis_id_kind: ChassisIdKind,
    pub port_id: Seq<char>,
    pub system_name: Option<Seq<char>>,
}

impl View for LldpNeighbor {
    type V = NeighborModel;

    open spec fn view(&self) -> NeighborModel {
        NeighborModel {
            interface: self.interface@,
            chassis_id: self.chassis_id@,
            chassis_id_kind: self.chassis_id_kind,
            port_id: self.port_id@,
            system_name: text::opt_text(self.system_name),
        }
    }
}

impl Clone for LldpNeighbor {
    fn clone(&self) -> (r: Self)
        ensures
            r == *self,
    {
        LldpNeighbor {
            interface: self.interface.clone(),
            chassis_id: self.chassis_id.clone(),
            chassis_id_kind: self.chassis_id_kind,
            port_id: self.port_id.clone(),
            system_name: text::clone_opt(&self.system_name),
        }
    }
}

// ---------------------------------------------------------------------
// Bytes as text
// ---------------------------------------------------------------------

/// The text that bytes encode in UTF-8.
pub open spec fn utf8_of(b: Seq<u8>) -> Option<Seq<char>> {
    if utf8::valid_utf8(b) {
        Some(utf8::decode_utf8(b))
    } else {
        None
    }
}

/// `std::str::from_utf8` gives the text that the bytes encode, and an error
/// where they are not valid UTF-8.
#[verifier::external_body]
fn utf8_str(b: &[u8]) -> (r: Option<&str>)
    ensures
        text::opt_str(r) == utf8_of(b@),
{
    std::str::from_utf8(b).ok()
}

/// The text that bytes encode, unless it is empty.
pub open spec fn nonempty_utf8_of(b: Seq<u8>) -> Option<Seq<char>> {
    match utf8_of(b) {
        Some(s) => if s.len() > 0 {
            Some(s)
        } else {
            None
        },
        None => None,
    }
}

fn utf8_string(b: &[u8]) -> (r: Option<String>)
    ensures
        text::opt_text(r) == utf8_of(b@),
{
    match utf8_str(b) {
        Some(s) => Some(s.to_owned()),
        None => None,
    }
}

fn nonempty_utf8_string(b: &[u8]) -> (r: Option<String>)
    ensures
        text::opt_text(r) == nonempty_utf8_of(b@),
{
    match utf8_str(b) {
        Some(s) => if text::is_empty(s) {
            None
        } else {
            Some(s.to_owned())
        },
        None => None,
    }
}

/// Two hexadecimal digits of a byte.
pub open spec fn byte_hex(b: u8) -> Seq<char> {
    number::zero_padded(number::hex(b as nat), 2)
}

/// The hexadecimal digits of bytes.
pub open spec fn bytes_hex(b: Seq<u8>) -> Seq<char>
    decreases b.len(),
{
    if b.len() == 0 {
        Seq::empty()
    } else {
        bytes_hex(b.drop_last()) + byte_hex(b.last())
    }
}

/// Bytes as hexadecimal pairs with colons between them.
pub open spec fn bytes_colon_hex(b: Seq<u8>) -> Seq<char> {
    scan::joined(b.map_values(|x: u8| byte_hex(x)), seq![':'])
}

fn hex_encode(bytes: &[u8]) -> (r: String)
    ensures
        r@ == bytes_hex(bytes@),
{
    let mut out = String::new();
    let mut i: usize = 0;
    while i < bytes.len()
        invariant
            i <= bytes@.len(),
            out@ == bytes_hex(bytes@.take(i as int)),
        decreases bytes@.len() - i,
    {
        out.append(number::hex_padded(bytes[i] as u64, 2).as_str());
        proof {
            let t = bytes@.take(i + 1);
            assert(t.drop_last() =~= bytes@.take(i as int));
        }
        i = i + 1;
    }
    assert(bytes@.take(bytes@.len() as int) =~= bytes@);
    out
}

fn mac_to_string(b: &[u8]) -> (r: String)
    ensures
        r@ == bytes_colon_hex(b@),
{
    let mut parts: Vec<String> = Vec::new();
    let mut i: usize = 0;
    while i < b.len()
        invariant
            i <= b@.len(),
            text::texts(parts@) == b@.take(i as int).map_values(|x: u8| byte_hex(x)),
        decreases b@.len() - i,
    {
        let ghost before = parts@;
        parts.push(number::hex_padded(b[i] as u64, 2));
        i = i + 1;
        assert(text::texts(parts@) =~= text::texts(before).push(byte_hex(b@[i - 1])));
        assert(b@.take(i as int).map_values(|x: u8| byte_hex(x)) =~= b@.take(i - 1).map_values(
            |x: u8| byte_hex(x),
        ).push(byte_hex(b@[i - 1])));
    }
    proof {
        assert(b@.take(b@.len() as int) =~= b@);
        reveal_strlit(":");
        assert(":"@ =~= seq![':']);
    }
    scan::join(&parts, ":")
}

// ---------------------------------------------------------------------
// The frame
// ---------------------------------------------------------------------

/// A type-length-value triple, without the length.
pub struct Tlv {
    pub kind: int,
    pub value: Seq<u8>,
}

/// The length that the two header bytes give.
pub open spec fn tlv_len(hi: u8, lo: u8) -> int {
    (hi % 2) * 256 + lo
}

/// The triples of a frame up to its end marker, or up to one that does not
/// fit in the bytes.
pub open spec fn tlvs(buf: Seq<u8>) -> Seq<Tlv>
    decreases buf.len(),
{
    if buf.len() < 2 {
        Seq::empty()
    } else {
        let kind = (buf[0] / 2) as int;
        let end = 2 + tlv_len(buf[0], buf[1]);
        if end > buf.len() || kind == 0 {
            Seq::empty()
        } else {
            seq![Tlv { kind, value: buf.subrange(2, end) }] + tlvs(buf.skip(end))
        }
    }
}

/// The value of the last triple of the given kind.
pub open spec fn last_value(t: Seq<Tlv>, kind: int) -> Option<Seq<u8>>
    decreases t.len(),
{
    if t.len() == 0 {
        None
    } else if t.last().kind == kind {
        Some(t.last().value)
    } else {
        last_value(t.drop_last(), kind)
    }
}

/// The chassis identifier that a value holds.
pub open spec fn chassis_of(val: Seq<u8>) -> Option<(Seq<char>, ChassisIdKind)> {
    if val.len() == 0 {
        None
    } else {
        let body = val.drop_first();
        if val[0] == 4 && body.len() == 6 {
            Some((bytes_colon_hex(body), ChassisIdKind::Mac))
        } else if val[0] == 6 || val[0] == 7 {
            match nonempty_utf8_of(body) {
                Some(s) => Some((s, ChassisIdKind::Name)),
                None => None,
            }
        } else {
            Some((bytes_hex(body), ChassisIdKind::Other))
        }
    }
}

/// The port identifier that a value holds.
pub open spec fn port_of(val: Seq<u8>) -> Option<Seq<char>> {
    if val.len() == 0 {
        None
    } else {
        let body = val.drop_first();
        if val[0] == 3 && body.len() == 6 {
            Some(bytes_colon_hex(body))
        } else if val[0] == 5 || val[0] == 6 || val[0] == 7 {
            utf8_of(body)
        } else {
            Some(bytes_hex(body))
        }
    }
}

/// The chassis identifier of the last Chassis ID triple.
pub open spec fn frame_chassis(t: Seq<Tlv>) -> Option<(Seq<char>, ChassisIdKind)> {
    match last_value(t, 1) {
        Some(v) => chassis_of(v),
        None => None,
    }
}

/// The port identifier of the last Port ID triple.
pub open spec fn frame_port(t: Seq<Tlv>) -> Option<Seq<char>> {
    match last_value(t, 2) {
        Some(v) => port_of(v),
        None => None,
    }
}

/// The text of the last System Name triple.
pub open spec fn frame_system_name(t: Seq<Tlv>) -> Option<Seq<char>> {
    match last_value(t, 5) {
        Some(v) => nonempty_utf8_of(v),
        None => None,
    }
}

/// The neighbour that a frame received on `interface` announces.
pub open spec fn neighbor_of(buf: Seq<u8>, interface: Seq<char>) -> Option<NeighborModel> {
    let t = tlvs(buf);
    match (frame_chassis(t), frame_port(t)) {
        (Some(c), Some(port_id)) => Some(
            NeighborModel {
                interface,
                chassis_id: c.0,
                chassis_id_kind: c.1,
                port_id,
                system_name: frame_system_name(t),
            },
        ),
        _ => None,
    }
}

/// The frame comes to its end marker.
pub open spec fn comes_to_end(buf: Seq<u8>) -> bool
    decreases buf.len(),
{
    if buf.len() < 2 {
        false
    } else {
        let end = 2 + tlv_len(buf[0], buf[1]);
        buf[0] / 2 == 0 || (end <= buf.len() && comes_to_end(buf.skip(end)))
    }
}

proof fn lemma_triples_end(buf: Seq<u8>, rest: Seq<u8>)
    requires
        comes_to_end(buf),
    ensures
        tlvs(buf + rest) == tlvs(buf),
    decreases buf.len(),
{
    let all = buf + rest;
    assert(all[0] == buf[0] && all[1] == buf[1]);
    let end = 2 + tlv_len(buf[0], buf[1]);
    if buf[0] / 2 != 0 {
        lemma_triples_end(buf.skip(end), rest);
        assert(all.subrange(2, end) =~= buf.subrange(2, end));
        assert(all.skip(end) =~= buf.skip(end) + rest);
    }
}

/// Bytes after the end marker of a frame change nothing.
pub proof fn law_bytes_after_end_are_ignored(buf: Seq<u8>, rest: Seq<u8>, interface: Seq<char>)
    requires
        comes_to_end(buf),
    ensures
        neighbor_of(buf + rest, interface) == neighbor_of(buf, interface),
{
    lemma_triples_end(buf, rest);
}

proof fn lemma_other_kind(t: Seq<Tlv>, i: int, kind: int)
    requires
        0 <= i < t.len(),
        t[i].kind != kind,
    ensures
        last_value(t.remove(i), kind) == last_value(t, kind),
    decreases t.len(),
{
    let u = t.remove(i);
    if i == t.len() - 1 {
        assert(u =~= t.drop_last());
    } else {
        assert(u.last() == t.last());
        assert(u.drop_last() =~= t.drop_last().remove(i));
        lemma_other_kind(t.drop_last(), i, kind);
    }
}

/// A frame announces the same neighbour without a triple that is neither a
/// Chassis ID, a Port ID nor a System Name.
pub proof fn law_other_triples_are_ignored(buf: Seq<u8>, shorter: Seq<u8>, i: int, interface: Seq<char>)
    requires
        0 <= i < tlvs(buf).len(),
        tlvs(buf)[i].kind != 1 && tlvs(buf)[i].kind != 2 && tlvs(buf)[i].kind != 5,
        tlvs(shorter) == tlvs(buf).remove(i),
    ensures
        neighbor_of(shorter, interface) == neighbor_of(buf, interface),
{
    lemma_other_kind(tlvs(buf), i, 1);
    lemma_other_kind(tlvs(buf), i, 2);
    lemma_other_kind(tlvs(buf), i, 5);
}

/// The model of an optional neighbour.
pub open spec fn opt_neighbor(o: Option<LldpNeighbor>) -> Option<NeighborModel> {
    match o {
        Some(n) => Some(n@),
        None => None,
    }
}

/// The model of an optional chassis identifier.
pub open spec fn opt_chassis(o: Option<(String, ChassisIdKind)>) -> Option<(Seq<char>, ChassisIdKind)> {
    match o {
        Some(c) => Some((c.0@, c.1)),
        None => None,
    }
}

fn parse_chassis_id(val: &[u8]) -> (r: Option<(String, ChassisIdKind)>)
    ensures
        opt_chassis(r) == chassis_of(val@),
{
    if val.len() == 0 {
        return None;
    }
    let subtype: u8 = val[0];
    let body = slice_subrange(val, 1, val.len());
    assert(body@ =~= val@.drop_first());
    if subtype == 4 && body.len() == 6 {
        Some((mac_to_string(body), ChassisIdKind::Mac))
    } else if subtype == 6 || subtype == 7 {
        match nonempty_utf8_string(body) {
            Some(s) => Some((s, ChassisIdKind::Name)),
            None => None,
        }
    } else {
        Some((hex_encode(body), ChassisIdKind::Other))
    }
}

fn parse_port_id(val: &[u8]) -> (r: Option<String>)
    ensures
        text::opt_text(r) == port_of(val@),
{
    if val.len() == 0 {
        return None;
    }
    let subtype: u8 = val[0];
    let body = slice_subrange(val, 1, val.len());
    assert(body@ =~= val@.drop_first());
    if subtype == 3 && body.len() == 6 {
        Some(mac_to_string(body))
    } else if subtype == 5 || subtype == 6 || subtype == 7 {
        utf8_string(body)
    } else {
        Some(hex_encode(body))
    }
}

/// One more triple is the last of its kind.
pub proof fn lemma_last_value_push(t: Seq<Tlv>, x: Tlv, kind: int)
    ensures
        last_value(t.push(x), kind) == if x.kind == kind {
            Some(x.value)
        } else {
            last_value(t, kind)
        },
{
    assert(t.push(x).drop_last() =~= t);
}

/// The neighbour that the frame `buf` announces: there is one when both
/// mandatory identifiers could be read.
pub fn parse_lldpdu(buf: &[u8], interface: String) -> (r: Option<LldpNeighbor>)
    ensures
        opt_neighbor(r) == neighbor_of(buf@, interface@),
{
    let mut chassis: Option<(String, ChassisIdKind)> = None;
    let mut port: Option<String> = None;
    let mut sysname: Option<String> = None;
    let mut p: usize = 0;
    let n: usize = buf.len();
    let ghost mut seen: Seq<Tlv> = Seq::empty();
    let ghost all = tlvs(buf@);
    proof {
        assert(buf@.skip(0) =~= buf@);
        assert(seen + all =~= all);
    }
    while n - p >= 2
        invariant_except_break
            seen + tlvs(buf@.skip(p as int)) == all,
        invariant
            n == buf@.len(),
            p <= n,
            opt_chassis(chassis) == frame_chassis(seen),
            text::opt_text(port) == frame_port(seen),
            text::opt_text(sysname) == frame_system_name(seen),
        ensures
            seen == all,
        decreases n - p,
    {
        let ghost rest = buf@.skip(p as int);
        let hi: u8 = buf[p];
        let lo: u8 = buf[p + 1];
        let ty: u8 = hi / 2;
        let len: usize = (hi % 2) as usize * 256 + lo as usize;
        proof {
            assert(rest[0] == hi && rest[1] == lo);
        }
        if len > n - p - 2 || ty == 0 {
            proof {
                assert(seen + Seq::<Tlv>::empty() =~= seen);
            }
            break;
        }
        let val = slice_subrange(buf, p + 2, p + 2 + len);
        proof {
            let x = Tlv { kind: ty as int, value: val@ };
            assert(val@ =~= rest.subrange(2, 2 + len));
            assert(rest.skip(2 + len) =~= buf@.skip(p + 2 + len));
            assert(seen + (seq![x] + tlvs(rest.skip(2 + len))) =~= seen.push(x) + tlvs(rest.skip(2 + len)));
            lemma_last_value_push(seen, x, 1);
            lemma_last_value_push(seen, x, 2);
            lemma_last_value_push(seen, x, 5);
            seen = seen.push(x);
        }
        p = p + 2 + len;
        if ty == 1 {
            chassis = parse_chassis_id(val);
        } else if ty == 2 {
            port = parse_port_id(val);
        } else if ty == 5 {
            sysname = nonempty_utf8_string(val);
        }
        proof {
            if n - p < 2 {
                assert(seen + tlvs(buf@.skip(p as int)) =~= seen);
            }
        }
    }
    match (chassis, port) {
        (Some(c), Some(port_id)) => Some(
            LldpNeighbor { interface, chassis_id: c.0, chassis_id_kind: c.1, port_id, system_name: sysname },
        ),
        _ => None,
    }
}

// ---------------------------------------------------------------------
// Label-safe names
// ---------------------------------------------------------------------

/// What a slug is made for.
#[derive(Debug, Clone, Copy, PartialEq, Eq, Structural)]
pub enum SlugUse {
    /// Any name in a label: letters, digits, dots and underscores stay.
    Label,
    /// The name of a rack: only letters and digits stay.
    Rack,
}

/// The characters that a slug keeps.
pub open spec fn is_slug_char(u: SlugUse, c: char) -> bool {
    'a' <= c <= 'z' || '0' <= c <= '9' || (u == SlugUse::Label && (c == '.' || c == '_'))
}

/// Lower case, with each run of other characters squashed to one dash.
pub open spec fn squashed(u: SlugUse, s: Seq<char>) -> Seq<char>
    decreases s.len(),
{
    if s.len() == 0 {
        Seq::empty()
    } else {
        let head = squashed(u, s.drop_last());
        let c = scan::lower_char(s.last());
        if is_slug_char(u, c) {
            head.push(c)
        } else if head.len() > 0 && head.last() == '-' {
            head
        } else {
            head.push('-')
        }
    }
}

/// The slug of a text: squashed, without dashes at its ends.
pub open spec fn slug_for(u: SlugUse, s: Seq<char>) -> Seq<char> {
    scan::trimmed(squashed(u, s), CharClass::One('-'))
}

/// The slug of a text for a label.
pub open spec fn slug_of(s: Seq<char>) -> Seq<char> {
    slug_for(SlugUse::Label, s)
}

/// Slug characters and single dashes between them.
pub open spec fn is_slug(u: SlugUse, s: Seq<char>) -> bool {
    &&& forall|i: int| 0 <= i < s.len() ==> is_slug_char(u, #[trigger] s[i]) || s[i] == '-'
    &&& forall|i: int| 0 < i < s.len() && #[trigger] s[i] == '-' ==> s[i - 1] != '-'
    &&& s.len() > 0 ==> s[0] != '-' && s.last() != '-'
}

fn slug_char(u: SlugUse, c: char) -> (r: bool)
    ensures
        r == is_slug_char(u, c),
{
    ('a' <= c && c <= 'z') || ('0' <= c && c <= '9') || (u == SlugUse::Label && (c == '.' || c == '_'))
}

/// The slug of `s` for a label.
pub fn slugify(s: &str) -> (r: String)
    ensures
        r@ == slug_of(s@),
{
    slugify_for(SlugUse::Label, s)
}

fn slugify_for(u: SlugUse, s: &str) -> (r: String)
    ensures
        r@ == slug_for(u, s@),
{
    let v = text::chars_of(s);
    let mut out = String::new();
    let mut last_dash = false;
    let mut i: usize = 0;
    while i < v.len()
        invariant
            v@ == s@,
            i <= v@.len(),
            out@ == squashed(u, v@.take(i as int)),
            last_dash == (out@.len() > 0 && out@.last() == '-'),
        decreases v@.len() - i,
    {
        let c = scan::lower(v[i]);
        proof {
            let t = v@.take(i + 1);
            assert(t.drop_last() =~= v@.take(i as int));
            assert(t.last() == v@[i as int]);
        }
        if slug_char(u, c) {
            out.push(c);
            last_dash = false;
        } else if !last_dash {
            out.push('-');
            last_dash = true;
        }
        i = i + 1;
    }
    assert(v@.take(v@.len() as int) =~= v@);
    scan::trim_of(out.as_str(), CharClass::One('-'))
}

proof fn lemma_squashed(u: SlugUse, s: Seq<char>)
    ensures
        ({
            let t = squashed(u, s);
            &&& forall|i: int| 0 <= i < t.len() ==> is_slug_char(u, #[trigger] t[i]) || t[i] == '-'
            &&& forall|i: int| 0 < i < t.len() && #[trigger] t[i] == '-' ==> t[i - 1] != '-'
        }),
    decreases s.len(),
{
    if s.len() > 0 {
        lemma_squashed(u, s.drop_last());
        let h = squashed(u, s.drop_last());
        let t = squashed(u, s);
        assert forall|i: int| 0 <= i < t.len() implies is_slug_char(u, #[trigger] t[i]) || t[i] == '-' by {
            if i < h.len() {
                assert(t[i] == h[i]);
            }
        }
        assert forall|i: int| 0 < i < t.len() && #[trigger] t[i] == '-' implies t[i - 1] != '-' by {
            assert(t[i - 1] == h[i - 1]);
            if i < h.len() {
                assert(t[i] == h[i]);
            }
        }
    }
}

/// A slug is safe as the value of a label: lower-case letters and digits,
/// and dots and underscores where they may stay, with single dashes between
/// them and none at the ends.
pub proof fn law_slug_is_safe(u: SlugUse, s: Seq<char>)
    ensures
        is_slug(u, slug_for(u, s)),
{
    let t = squashed(u, s);
    lemma_squashed(u, s);
    let (a, b) = scan::lemma_trimmed(t, CharClass::One('-'));
    let w = t.subrange(a, b);
    assert forall|i: int| 0 <= i < w.len() implies is_slug_char(u, #[trigger] w[i]) || w[i] == '-' by {
        assert(w[i] == t[a + i]);
    }
    assert forall|i: int| 0 < i < w.len() && #[trigger] w[i] == '-' implies w[i - 1] != '-' by {
        assert(w[i] == t[a + i]);
    }
}

/// A text of slug characters and single dashes stays as it is.
pub proof fn lemma_squash_keeps(u: SlugUse, s: Seq<char>)
    requires
        forall|i: int| 0 <= i < s.len() ==> is_slug_char(u, #[trigger] s[i]) || s[i] == '-',
        forall|i: int| 0 < i < s.len() && #[trigger] s[i] == '-' ==> s[i - 1] != '-',
    ensures
        squashed(u, s) == s,
    decreases s.len(),
{
    if s.len() > 0 {
        let h = s.drop_last();
        assert forall|i: int| 0 <= i < h.len() implies is_slug_char(u, #[trigger] h[i]) || h[i] == '-' by {
            assert(h[i] == s[i]);
        }
        assert forall|i: int| 0 < i < h.len() && #[trigger] h[i] == '-' implies h[i - 1] != '-' by {
            assert(h[i] == s[i]);
        }
        lemma_squash_keeps(u, h);
        assert(is_slug_char(u, s[s.len() - 1]) || s[s.len() - 1] == '-');
        assert(s =~= h.push(s.last()));
    }
}

/// A slug is its own slug.
pub proof fn law_slug_idempotent(u: SlugUse, s: Seq<char>)
    ensures
        slug_for(u, slug_for(u, s)) == slug_for(u, s),
{
    law_slug_is_safe(u, s);
    lemma_squash_keeps(u, slug_for(u, s));
}

/// `s` without its colons.
pub open spec fn without_colons(s: Seq<char>) -> Seq<char> {
    s.filter(|c: char| c != ':')
}

fn drop_colons(s: &str) -> (r: String)
    ensures
        r@ == without_colons(s@),
{
    let v = text::chars_of(s);
    let mut out = String::new();
    let mut i: usize = 0;
    assert(without_colons(v@.take(0)) =~= Seq::<char>::empty()) by {
        reveal(Seq::filter);
    }
    while i < v.len()
        invariant
            v@ == s@,
            i <= v@.len(),
            out@ == without_colons(v@.take(i as int)),
        decreases v@.len() - i,
    {
        proof {
            assert(v@.take(i + 1) =~= v@.take(i as int).push(v@[i as int]));
            sorting::lemma_filter_push(v@.take(i as int), v@[i as int], |c: char| c != ':');
        }
        if v[i] != ':' {
            out.push(v[i]);
        }
        i = i + 1;
    }
    assert(v@.take(v@.len() as int) =~= v@);
    out
}

/// The rack that a neighbour's switch stands for.
pub open spec fn rack_slug_of(n: NeighborModel) -> Seq<char> {
    match n.chassis_id_kind {
        ChassisIdKind::Mac => without_colons(n.chassis_id),
        _ => slug_for(SlugUse::Rack, n.chassis_id),
    }
}

impl LldpNeighbor {
    /// A label-safe name for the rack: the digits of a MAC chassis
    /// identifier, the letters and digits of any other with dashes between
    /// them.
    pub fn rack_slug(&self) -> (r: String)
        ensures
            r@ == rack_slug_of(self@),
            self.chassis_id_kind != ChassisIdKind::Mac ==> is_slug(SlugUse::Rack, r@),
    {
        proof {
            law_slug_is_safe(SlugUse::Rack, self.chassis_id@);
        }
        match self.chassis_id_kind {
            ChassisIdKind::Mac => drop_colons(self.chassis_id.as_str()),
            _ => slugify_for(SlugUse::Rack, self.chassis_id.as_str()),
        }
    }
}

/// A lower-case hexadecimal digit.
pub open spec fn is_hex_char(c: char) -> bool {
    '0' <= c <= '9' || 'a' <= c <= 'f'
}

proof fn lemma_byte_hex(b: u8)
    ensures
        byte_hex(b).len() == 2,
        is_hex_char(byte_hex(b)[0]),
        is_hex_char(byte_hex(b)[1]),
{
    reveal_with_fuel(number::numeral, 3);
    reveal_with_fuel(number::zero_padded, 3);
    let h = number::hex(b as nat);
    assert(b < 16 ==> h.len() == 1);
    assert(b >= 16 ==> (b as nat) / 16 < 16 && h.len() == 2);
}

proof fn lemma_colons_dropped(b: Seq<u8>)
    ensures
        without_colons(bytes_colon_hex(b)) == bytes_hex(b),
        bytes_hex(b).len() == 2 * b.len(),
        forall|i: int| 0 <= i < bytes_hex(b).len() ==> is_hex_char(#[trigger] bytes_hex(b)[i]),
    decreases b.len(),
{
    let keep = |c: char| c != ':';
    let parts = b.map_values(|x: u8| byte_hex(x));
    if b.len() == 0 {
        reveal(Seq::filter);
        assert(bytes_colon_hex(b) =~= Seq::<char>::empty());
    } else {
        let h = byte_hex(b.last());
        lemma_byte_hex(b.last());
        lemma_colons_dropped(b.drop_last());
        assert(h.filter(keep) =~= h) by {
            assert(h =~= Seq::<char>::empty().push(h[0]).push(h[1]));
            sorting::lemma_filter_push(Seq::<char>::empty(), h[0], keep);
            sorting::lemma_filter_push(Seq::<char>::empty().push(h[0]), h[1], keep);
            assert(Seq::<char>::empty().filter(keep) =~= Seq::<char>::empty()) by {
                reveal(Seq::filter);
            }
        }
        assert(parts.drop_last() =~= b.drop_last().map_values(|x: u8| byte_hex(x)));
        assert(parts.last() == h);
        if b.len() == 1 {
            assert(bytes_colon_hex(b) == h);
            assert(b.drop_last() =~= Seq::<u8>::empty());
            assert(bytes_hex(b) =~= h);
        } else {
            let front = bytes_colon_hex(b.drop_last());
            assert(bytes_colon_hex(b) == front + seq![':'] + h);
            Seq::filter_distributes_over_add(front + seq![':'], h, keep);
            assert(front + seq![':'] =~= front.push(':'));
            sorting::lemma_filter_push(front, ':', keep);
        }
    }
}

/// The rack of a frame whose chassis identifier is a MAC address is named by
/// its twelve hexadecimal digits.
pub proof fn law_mac_rack_is_twelve_digits(buf: Seq<u8>, interface: Seq<char>)
    requires
        neighbor_of(buf, interface) is Some,
        neighbor_of(buf, interface)->0.chassis_id_kind == ChassisIdKind::Mac,
    ensures
        ({
            let slug = rack_slug_of(neighbor_of(buf, interface)->0);
            slug.len() == 12 && forall|i: int| 0 <= i < 12 ==> is_hex_char(#[trigger] slug[i])
        }),
{
    let val = last_value(tlvs(buf), 1)->0;
    lemma_colons_dropped(val.drop_first());
}

/// A rack name is safe as the value of a label: lower-case letters and
/// digits, with single dashes between them and none at the ends.
pub proof fn law_rack_slug_is_safe(buf: Seq<u8>, interface: Seq<char>)
    requires
        neighbor_of(buf, interface) is Some,
    ensures
        is_slug(SlugUse::Rack, rack_slug_of(neighbor_of(buf, interface)->0)),
{
    let n = neighbor_of(buf, interface)->0;
    if n.chassis_id_kind == ChassisIdKind::Mac {
        law_mac_rack_is_twelve_digits(buf, interface);
    } else {
        law_slug_is_safe(SlugUse::Rack, n.chassis_id);
    }
}

// ---------------------------------------------------------------------
// Discovery
// ---------------------------------------------------------------------

/// The interface index in `ifindex`, if frames should be asked for on the
/// interface: not the loopback, not an obvious virtual one, and up.
pub open spec fn subscribable_index(
    name: Seq<char>,
    ifindex: Option<Seq<char>>,
    operstate: Option<Seq<char>>,
) -> Option<int> {
    let state = match operstate {
        Some(s) => scan::trim_space(s),
        None => Seq::empty(),
    };
    if name == "lo"@ || scan::has_prefix(name, "docker"@) || scan::has_prefix(name, "veth"@)
        || scan::has_prefix(name, "br-"@) {
        None
    } else if state != "up"@ && state != "unknown"@ {
        None
    } else {
        match ifindex {
            Some(s) => number::i32_of(scan::trim_space(s)),
            None => None,
        }
    }
}

/// The index of an interface to ask for frames on, from its name and the
/// contents of its `ifindex` and `operstate` files.
pub fn subscribable(name: &str, ifindex: Option<&str>, operstate: Option<&str>) -> (r: Option<i32>)
    ensures
        match r {
            Some(i) => subscribable_index(name@, text::opt_str(ifindex), text::opt_str(operstate)) == Some(
                i as int,
            ),
            None => subscribable_index(name@, text::opt_str(ifindex), text::opt_str(operstate)) is None,
        },
{
    if text::same(name, "lo") {
        return None;
    }
    if scan::starts_with(name, "docker") || scan::starts_with(name, "veth") || scan::starts_with(name, "br-") {
        return None;
    }
    let index: Option<i32> = match ifindex {
        Some(s) => {
            let t = scan::trim(s);
            number::parse_i32(t.as_str())
        },
        None => None,
    };
    let state = match operstate {
        Some(s) => scan::trim(s),
        None => String::new(),
    };
    proof {
        if operstate is None {
            assert(state@ =~= Seq::<char>::empty());
        }
    }
    if !text::same(state.as_str(), "up") && !text::same(state.as_str(), "unknown") {
        return None;
    }
    index
}

/// What the wait for a frame came to.
pub enum DiscoverEvent {
    /// The deadline passed or the wait failed.
    Over,
    /// The socket had nothing to read after all, or reading failed.
    Nothing,
    /// A frame, with the index of the interface that received it and the
    /// interface's name where the system knows one.
    Frame { bytes: Vec<u8>, ifindex: i32, name: Option<String> },
}

/// The name of the receiving interface, made up from the index where the
/// system knows none.
pub open spec fn interface_name(ifindex: int, name: Option<Seq<char>>) -> Seq<char> {
    match name {
        Some(s) => s,
        None => "if"@ + number::signed_decimal(ifindex),
    }
}

/// The neighbours seen so far, by interface.
pub open spec fn neighbors_by(m: TextMap<LldpNeighbor>) -> Map<Seq<char>, NeighborModel> {
    m@.map_values(|n: LldpNeighbor| n@)
}

/// The neighbours after an event: a frame that announces one replaces what
/// its interface saw before.
pub open spec fn neighbors_after(
    m: Map<Seq<char>, NeighborModel>,
    event: DiscoverEvent,
) -> Map<Seq<char>, NeighborModel> {
    match event {
        DiscoverEvent::Frame { bytes, ifindex, name } => {
            let iface = interface_name(ifindex as int, text::opt_text(name));
            match neighbor_of(bytes@, iface) {
                Some(n) => m.insert(iface, n),
                None => m,
            }
        },
        _ => m,
    }
}

/// Whether there is any time to wait for frames.
pub fn wants_discovery(timeout_nanos: u128) -> (r: bool)
    ensures
        r == (timeout_nanos > 0),
{
    timeout_nanos > 0
}

/// Takes one event of the discovery loop in, and says whether to wait for
/// another.
pub fn discover_step(by_iface: &mut TextMap<LldpNeighbor>, event: DiscoverEvent) -> (go_on: bool)
    ensures
        go_on == !(event is Over),
        neighbors_by(*final(by_iface)) == neighbors_after(neighbors_by(*old(by_iface)), event),
{
    match event {
        DiscoverEvent::Over => false,
        DiscoverEvent::Nothing => true,
        DiscoverEvent::Frame { bytes, ifindex, name } => {
            let iface = match name {
                Some(s) => s,
                None => text::join2("if", number::dec_i64(ifindex as i64).as_str()),
            };
            let key = iface.clone();
            match parse_lldpdu(bytes.as_slice(), iface) {
                Some(n) => {
                    let ghost before = by_iface@;
                    let ghost k = key@;
                    let ghost v = n@;
                    by_iface.insert(key, n);
                    proof {
                        assert(neighbors_by(*by_iface) =~= before.map_values(|n: LldpNeighbor| n@).insert(k, v));
                    }
                },
                None => {},
            }
            true
        },
    }
}

/// The neighbours seen, in the order of their interfaces.
pub fn discovered(by_iface: &TextMap<LldpNeighbor>) -> (r: Vec<LldpNeighbor>)
    ensures
        r@.len() == by_iface.seq().len(),
        forall|i: int| 0 <= i < r@.len() ==> #[trigger] r@[i] == by_iface.seq()[i].1,
        textmap::increasing(by_iface.seq()),
{
    let entries = by_iface.entries();
    let mut out: Vec<LldpNeighbor> = Vec::new();
    let mut i: usize = 0;
    while i < entries.len()
        invariant
            i <= entries@.len(),
            out@.len() == i,
            forall|j: int| 0 <= j < i ==> #[trigger] out@[j] == entries@[j].1,
        decreases entries@.len() - i,
    {
        out.push(entries[i].1.clone());
        i = i + 1;
    }
    out
}

} // verus!
