//! The gzip member header: the fixed ten bytes and the optional fields
//! (extra field, file name, comment) that the flag byte announces.

use vstd::prelude::*;
use vstd::string::StringExecFns;
use vstd::utf8::{decode_utf8, valid_utf8};
use vstd::slice::{slice_subrange, slice_to_vec};
use crate::text::{decimal_text, hex2_text, push_decimal, push_hex2};

verus! {

pub const FLAG_TEXT: u8 = 1;
pub const FLAG_HCRC: u8 = 2;
pub const FLAG_EXTRA: u8 = 4;
pub const FLAG_NAME: u8 = 8;
pub const FLAG_COMMENT: u8 = 16;

/// Metadata of one member's header, each field rendered for display.
pub struct GzipHeaderInfo {
    pub compression_method: String,
    pub flags: Vec<String>,
    pub mtime: String,
    pub extra_flags: String,
    pub os: String,
    pub extra_fields: Vec<(u16, Vec<u8>)>,
    pub filename: Option<String>,
    pub comment: Option<String>,
}

/// The mathematical content of a `GzipHeaderInfo`.
pub struct HeaderModel {
    pub compression_method: Seq<char>,
    pub flags: Seq<Seq<char>>,
    pub mtime: Seq<char>,
    pub extra_flags: Seq<char>,
    pub os: Seq<char>,
    pub extra_fields: Seq<(u16, Seq<u8>)>,
    pub filename: Option<Seq<char>>,
    pub comment: Option<Seq<char>>,
}

pub open spec fn strings_view(v: Seq<String>) -> Seq<Seq<char>> {
    v.map_values(|s: String| s@)
}

pub open spec fn fields_view(v: Seq<(u16, Vec<u8>)>) -> Seq<(u16, Seq<u8>)> {
    v.map_values(|e: (u16, Vec<u8>)| (e.0, e.1@))
}

pub open spec fn opt_string_view(o: Option<String>) -> Option<Seq<char>> {
    match o {
        Some(s) => Some(s@),
        None => None,
    }
}

impl View for GzipHeaderInfo {
    type V = HeaderModel;

    open spec fn view(&self) -> HeaderModel {
        HeaderModel {
            compression_method: self.compression_method@,
            flags: strings_view(self.flags@),
            mtime: self.mtime@,
            extra_flags: self.extra_flags@,
            os: self.os@,
            extra_fields: fields_view(self.extra_fields@),
            filename: opt_string_view(self.filename),
            comment: opt_string_view(self.comment),
        }
    }
}

/// Names of the flag bits that are set, in bit order.
pub open spec fn flag_names(f: u8) -> Seq<Seq<char>> {
    (if f & FLAG_TEXT != 0 { seq!["TEXT"@] } else { Seq::empty() })
    + (if f & FLAG_HCRC != 0 { seq!["HCRC"@] } else { Seq::empty() })
    + (if f & FLAG_EXTRA != 0 { seq!["EXTRA"@] } else { Seq::empty() })
    + (if f & FLAG_NAME != 0 { seq!["NAME"@] } else { Seq::empty() })
    + (if f & FLAG_COMMENT != 0 { seq!["COMMENT"@] } else { Seq::empty() })
}

pub open spec fn method_name(cm: u8) -> Seq<char> {
    if cm == 8 {
        "deflate"@
    } else {
        "unknown("@ + decimal_text(cm as nat) + ")"@
    }
}

pub open spec fn extra_flags_name(xfl: u8) -> Seq<char> {
    if xfl == 2 {
        "max compression"@
    } else if xfl == 4 {
        "fastest"@
    } else {
        "unknown(0x"@ + hex2_text(xfl) + ")"@
    }
}

pub open spec fn os_name(os: u8) -> Seq<char> {
    if os == 0 { "FAT"@ }
    else if os == 1 { "Amiga"@ }
    else if os == 2 { "VMS"@ }
    else if os == 3 { "Unix"@ }
    else if os == 4 { "VM/CMS"@ }
    else if os == 5 { "Atari TOS"@ }
    else if os == 6 { "HPFS"@ }
    else if os == 7 { "Macintosh"@ }
    else if os == 8 { "Z-System"@ }
    else if os == 9 { "CP/M"@ }
    else if os == 10 { "TOPS-20"@ }
    else if os == 11 { "NTFS"@ }
    else if os == 12 { "QDOS"@ }
    else if os == 13 { "Acorn RISCOS"@ }
    else if os == 255 { "unknown"@ }
    else { "unknown("@ + decimal_text(os as nat) + ")"@ }
}

/// Little-endian unsigned 32-bit value of the four bytes at `at`.
pub open spec fn le_u32(b: Seq<u8>, at: int) -> int {
    b[at] + 256 * b[at + 1] + 65536 * b[at + 2] + 16777216 * b[at + 3]
}

/// Little-endian unsigned 16-bit value of the two bytes at `at`.
pub open spec fn le_u16(b: Seq<u8>, at: int) -> int {
    b[at] + 256 * b[at + 1]
}

/// The text of a Unix time stamp in seconds, as chrono renders a UTC date-time,
/// or `None` where chrono has no date-time for it.
pub uninterp spec fn utc_timestamp_text(secs: u32) -> Option<Seq<char>>;

pub open spec fn mtime_text(secs: u32) -> Seq<char> {
    if secs == 0 {
        "Not set"@
    } else {
        match utc_timestamp_text(secs) {
            Some(t) => t,
            None => "Invalid"@,
        }
    }
}

/// Subfields of an extra field, from byte `pos` on: a two-byte id, a two-byte
/// little-endian length, then that many bytes (none where they would overrun).
pub open spec fn subfields_from(e: Seq<u8>, pos: int) -> Seq<(u16, Seq<u8>)>
    decreases e.len() - pos,
{
    if pos < 0 || pos + 4 > e.len() {
        Seq::empty()
    } else {
        let len = e[pos + 2] as int + 256 * (e[pos + 3] as int);
        let id = (e[pos] * 256 + e[pos + 1]) as u16;
        if pos + 4 + len <= e.len() {
            seq![(id, e.subrange(pos + 4, pos + 4 + len))] + subfields_from(e, pos + 4 + len)
        } else {
            seq![(id, Seq::empty())]
        }
    }
}

/// Index of the first zero byte of `s` at or after `from`, or `s.len()` if none.
pub open spec fn zero_index(s: Seq<u8>, from: int) -> int
    decreases s.len() - from,
{
    if from < 0 || from >= s.len() {
        s.len() as int
    } else if s[from] == 0 {
        from
    } else {
        zero_index(s, from + 1)
    }
}

/// Where a zero-terminated field starting at `from` ends, its terminator consumed.
pub open spec fn terminated_end(s: Seq<u8>, from: int) -> int {
    let z = zero_index(s, from);
    if z < s.len() { z + 1 } else { z }
}

pub open spec fn utf8_text(b: Seq<u8>) -> Option<Seq<char>> {
    if valid_utf8(b) { Some(decode_utf8(b)) } else { None }
}

proof fn lemma_zero_index_bounds(s: Seq<u8>, from: int)
    requires
        0 <= from <= s.len(),
    ensures
        from <= zero_index(s, from) <= s.len(),
        zero_index(s, from) < s.len() ==> s[zero_index(s, from)] == 0,
        forall|j: int| from <= j < zero_index(s, from) ==> s[j] != 0,
    decreases s.len() - from,
{
    if from < s.len() && s[from] != 0 {
        lemma_zero_index_bounds(s, from + 1);
    }
}

proof fn lemma_zero_index_prefix(s: Seq<u8>, t: Seq<u8>, from: int)
    requires
        0 <= from <= t.len() <= s.len(),
        t == s.take(t.len() as int),
        zero_index(s, from) < t.len() || t.len() == s.len(),
    ensures
        zero_index(t, from) == zero_index(s, from),
    decreases s.len() - from,
{
    lemma_zero_index_bounds(s, from);
    if t.len() == s.len() {
        assert(t =~= s);
    } else if from < t.len() {
        assert(t[from] == s[from]);
        if s[from] != 0 {
            lemma_zero_index_prefix(s, t, from + 1);
        }
    }
}

/// The header's optional fields are read the same from any prefix of the bytes
/// after the fixed header that still holds all of them.
pub proof fn lemma_header_prefix(h: Seq<u8>, rest: Seq<u8>, m: int)
    requires
        h.len() >= 10,
        extra_fits(h[3], rest),
        optional_len(h[3], rest) <= m <= rest.len(),
    ensures
        extra_fits(h[3], rest.take(m)),
        optional_len(h[3], rest.take(m)) == optional_len(h[3], rest),
        header_view(h, rest.take(m)) == header_view(h, rest),
{
    let f = h[3];
    let t = rest.take(m);
    let e = extra_end(f, rest);
    assert(0 <= e <= rest.len());
    lemma_zero_index_bounds(rest, e);
    let n = name_end(f, rest);
    assert(e <= n <= rest.len());
    lemma_zero_index_bounds(rest, n);
    assert(n <= optional_len(f, rest));
    if f & FLAG_EXTRA != 0 {
        assert(t[0] == rest[0] && t[1] == rest[1]);
        assert(t.subrange(2, e) =~= rest.subrange(2, e));
    }
    assert(extra_end(f, t) == e);
    if f & FLAG_NAME != 0 {
        lemma_zero_index_prefix(rest, t, e);
        assert(t.subrange(e, zero_index(t, e)) =~= rest.subrange(e, zero_index(rest, e)));
    }
    assert(name_end(f, t) == n);
    if f & FLAG_COMMENT != 0 {
        lemma_zero_index_prefix(rest, t, n);
        assert(t.subrange(n, zero_index(t, n)) =~= rest.subrange(n, zero_index(rest, n)));
    }
}

/// Whether the bytes after the fixed header hold the whole extra field, if announced.
pub open spec fn extra_fits(f: u8, rest: Seq<u8>) -> bool {
    f & FLAG_EXTRA != 0 ==> rest.len() >= 2 && rest.len() >= 2 + le_u16(rest, 0)
}

pub open spec fn extra_end(f: u8, rest: Seq<u8>) -> int {
    if f & FLAG_EXTRA != 0 { 2 + le_u16(rest, 0) } else { 0 }
}

pub open spec fn name_end(f: u8, rest: Seq<u8>) -> int {
    if f & FLAG_NAME != 0 { terminated_end(rest, extra_end(f, rest)) } else { extra_end(f, rest) }
}

/// Number of bytes after the fixed header that belong to the header.
pub open spec fn optional_len(f: u8, rest: Seq<u8>) -> int {
    if f & FLAG_COMMENT != 0 { terminated_end(rest, name_end(f, rest)) } else { name_end(f, rest) }
}

/// The header that the fixed bytes `h` and the bytes `rest` after them describe.
pub open spec fn header_view(h: Seq<u8>, rest: Seq<u8>) -> HeaderModel {
    let f = h[3];
    let e = extra_end(f, rest);
    let n = name_end(f, rest);
    HeaderModel {
        compression_method: method_name(h[2]),
        flags: flag_names(f),
        mtime: mtime_text(le_u32(h, 4) as u32),
        extra_flags: extra_flags_name(h[8]),
        os: os_name(h[9]),
        extra_fields: if f & FLAG_EXTRA != 0 {
            subfields_from(rest.subrange(2, e), 0)
        } else {
            Seq::empty()
        },
        filename: if f & FLAG_NAME != 0 {
            utf8_text(rest.subrange(e, zero_index(rest, e)))
        } else {
            None
        },
        comment: if f & FLAG_COMMENT != 0 {
            utf8_text(rest.subrange(n, zero_index(rest, n)))
        } else {
            None
        },
    }
}

/// Relies on chrono's `DateTime::from_timestamp` (seconds, no nanoseconds) and on
/// the `Display` of the resulting `DateTime<Utc>`: the text depends on the seconds alone.
#[verifier::external_body]
fn render_utc_timestamp(secs: u32) -> (r: Option<String>)
    ensures
        r matches Some(t) ==> utc_timestamp_text(secs) == Some(t@),
        r is None ==> utc_timestamp_text(secs) is None,
{
    match chrono::DateTime::from_timestamp(secs as i64, 0) {
        Some(dt) => Some(dt.to_string()),
        None => None,
    }
}

/// Relies on `String::from_utf8`: it accepts exactly the well-formed UTF-8
/// byte sequences and decodes them.
#[verifier::external_body]
fn utf8_string(bytes: Vec<u8>) -> (r: Option<String>)
    ensures
        (r is Some) == valid_utf8(bytes@),
        r matches Some(s) ==> s@ == decode_utf8(bytes@),
{
    String::from_utf8(bytes).ok()
}

fn push_flag(flags: &mut Vec<String>, name: &str)
    ensures
        strings_view(final(flags)@) == strings_view(old(flags)@).push(name@),
{
    flags.push(String::from_str(name));
    assert(strings_view(flags@) =~= strings_view(old(flags)@).push(name@));
}

fn flag_list(f: u8) -> (r: Vec<String>)
    ensures
        strings_view(r@) == flag_names(f),
{
    let mut flags: Vec<String> = Vec::new();
    assert(strings_view(flags@) =~= Seq::<Seq<char>>::empty());
    if f & FLAG_TEXT != 0 {
        push_flag(&mut flags, "TEXT");
    }
    if f & FLAG_HCRC != 0 {
        push_flag(&mut flags, "HCRC");
    }
    if f & FLAG_EXTRA != 0 {
        push_flag(&mut flags, "EXTRA");
    }
    if f & FLAG_NAME != 0 {
        push_flag(&mut flags, "NAME");
    }
    if f & FLAG_COMMENT != 0 {
        push_flag(&mut flags, "COMMENT");
    }
    assert(strings_view(flags@) =~= flag_names(f));
    flags
}

fn unknown_code(code: u8) -> (r: String)
    ensures
        r@ == "unknown("@ + decimal_text(code as nat) + ")"@,
{
    let mut s = String::from_str("unknown(");
    push_decimal(&mut s, code as u64);
    s.append(")");
    s
}

fn method_text(cm: u8) -> (r: String)
    ensures
        r@ == method_name(cm),
{
    if cm == 8 {
        String::from_str("deflate")
    } else {
        unknown_code(cm)
    }
}

fn extra_flags_text(xfl: u8) -> (r: String)
    ensures
        r@ == extra_flags_name(xfl),
{
    if xfl == 2 {
        String::from_str("max compression")
    } else if xfl == 4 {
        String::from_str("fastest")
    } else {
        let mut s = String::from_str("unknown(0x");
        push_hex2(&mut s, xfl);
        s.append(")");
        s
    }
}

fn os_text(os: u8) -> (r: String)
    ensures
        r@ == os_name(os),
{
    let name: &str = match os {
        0 => "FAT",
        1 => "Amiga",
        2 => "VMS",
        3 => "Unix",
        4 => "VM/CMS",
        5 => "Atari TOS",
        6 => "HPFS",
        7 => "Macintosh",
        8 => "Z-System",
        9 => "CP/M",
        10 => "TOPS-20",
        11 => "NTFS",
        12 => "QDOS",
        13 => "Acorn RISCOS",
        255 => "unknown",
        _ => {
            return unknown_code(os);
        },
    };
    String::from_str(name)
}

fn mtime_string(secs: u32) -> (r: String)
    ensures
        r@ == mtime_text(secs),
{
    if secs == 0 {
        String::from_str("Not set")
    } else {
        match render_utc_timestamp(secs) {
            Some(t) => t,
            None => String::from_str("Invalid"),
        }
    }
}

fn parse_subfields(e: &[u8]) -> (r: Vec<(u16, Vec<u8>)>)
    requires
        e@.len() < 0x10000,
    ensures
        fields_view(r@) == subfields_from(e@, 0),
{
    let mut out: Vec<(u16, Vec<u8>)> = Vec::new();
    let mut pos: usize = 0;
    assert(fields_view(out@) =~= Seq::<(u16, Seq<u8>)>::empty());
    while pos + 4 <= e.len()
        invariant
            e@.len() < 0x10000,
            pos <= e@.len(),
            fields_view(out@) + subfields_from(e@, pos as int) == subfields_from(e@, 0),
        decreases e@.len() - pos,
    {
        let len: usize = e[pos + 2] as usize + (e[pos + 3] as usize) * 256;
        let id: u16 = (e[pos] as u16) * 256 + e[pos + 1] as u16;
        let ghost before = fields_view(out@);
        if pos + 4 + len <= e.len() {
            let data = slice_to_vec(slice_subrange(e, pos + 4, pos + 4 + len));
            out.push((id, data));
            assert(fields_view(out@) =~= before.push((id, data@)));
            pos = pos + 4 + len;
        } else {
            out.push((id, Vec::new()));
            assert(fields_view(out@) =~= before.push((id, Seq::<u8>::empty())));
            pos = e.len();
        }
    }
    out
}

/// Reads the zero-terminated field that starts at `from`: its bytes, and the
/// index just past its terminator (or the end of `rest` if there is none).
fn read_terminated(rest: &[u8], from: usize) -> (r: (Vec<u8>, usize))
    requires
        from <= rest@.len(),
    ensures
        r.0@ == rest@.subrange(from as int, zero_index(rest@, from as int)),
        r.1 == terminated_end(rest@, from as int),
        r.1 <= rest@.len(),
{
    let mut i: usize = from;
    while i < rest.len() && rest[i] != 0
        invariant
            from <= i <= rest@.len(),
            zero_index(rest@, from as int) == zero_index(rest@, i as int),
        decreases rest@.len() - i,
    {
        i = i + 1;
    }
    let bytes = slice_to_vec(slice_subrange(rest, from, i));
    let end: usize = if i < rest.len() { i + 1 } else { i };
    (bytes, end)
}

/// Decodes the fixed ten header bytes `header` of a member and the optional
/// fields that its flag byte announces, which are read from `rest`, the bytes
/// that follow those ten. Returns the header and how many bytes of `rest` belong
/// to it; `None` where an announced extra field runs past the end of `rest`.
/// A file name or comment runs to its zero byte or to the end of `rest`.
pub fn parse_gzip_header(header: &[u8], rest: &[u8]) -> (r: Option<(GzipHeaderInfo, usize)>)
    requires
        header@.len() >= 10,
    ensures
        (r is None) == !extra_fits(header@[3], rest@),
        r matches Some((info, n)) ==> {
            &&& info@ == header_view(header@, rest@)
            &&& n == optional_len(header@[3], rest@)
            &&& n <= rest@.len()
        },
{
    let f = header[3];
    let secs: u32 = header[4] as u32 + (header[5] as u32) * 256 + (header[6] as u32) * 65536
        + (header[7] as u32) * 16777216;
    let mut extra_fields: Vec<(u16, Vec<u8>)> = Vec::new();
    let mut pos: usize = 0;
    if f & FLAG_EXTRA != 0 {
        if rest.len() < 2 {
            return None;
        }
        let xlen: usize = rest[0] as usize + (rest[1] as usize) * 256;
        if rest.len() - 2 < xlen {
            return None;
        }
        extra_fields = parse_subfields(slice_subrange(rest, 2, 2 + xlen));
        pos = 2 + xlen;
    }
    assert(pos == extra_end(f, rest@));
    let mut filename: Option<String> = None;
    if f & FLAG_NAME != 0 {
        let (bytes, end) = read_terminated(rest, pos);
        filename = utf8_string(bytes);
        pos = end;
    }
    assert(pos == name_end(f, rest@));
    let mut comment: Option<String> = None;
    if f & FLAG_COMMENT != 0 {
        let (bytes, end) = read_terminated(rest, pos);
        comment = utf8_string(bytes);
        pos = end;
    }
    let info = GzipHeaderInfo {
        compression_method: method_text(header[2]),
        flags: flag_list(f),
        mtime: mtime_string(secs),
        extra_flags: extra_flags_text(header[8]),
        os: os_text(header[9]),
        extra_fields,
        filename,
        comment,
    };
    assert(info@.extra_fields == header_view(header@, rest@).extra_fields);
    Some((info, pos))
}

/// Names joined with a vertical bar between each two.
pub open spec fn join_bar(v: Seq<Seq<char>>) -> Seq<char>
    decreases v.len(),
{
    if v.len() == 0 {
        Seq::empty()
    } else if v.len() == 1 {
        v[0]
    } else {
        join_bar(v.drop_last()) + "|"@ + v.last()
    }
}

/// One-line summary of a header: method, flags, and the file name if decoded.
pub open spec fn header_summary(m: HeaderModel) -> Seq<char> {
    m.compression_method + "|"@ + join_bar(m.flags) + match m.filename {
        Some(f) => "|"@ + f,
        None => Seq::empty(),
    }
}

impl GzipHeaderInfo {
    /// The one-line summary: `method|FLAG|FLAG|filename`.
    pub fn display_text(&self) -> (r: String)
        ensures
            r@ == header_summary(self@),
    {
        let mut s = self.compression_method.clone();
        s.append("|");
        let mut flags = String::new();
        let mut i: usize = 0;
        while i < self.flags.len()
            invariant
                i <= self.flags@.len(),
                flags@ == join_bar(strings_view(self.flags@).take(i as int)),
            decreases self.flags@.len() - i,
        {
            let ghost names = strings_view(self.flags@);
            assert(names.take(i + 1).drop_last() =~= names.take(i as int));
            if i > 0 {
                flags.append("|");
            }
            flags.append(self.flags[i].as_str());
            i = i + 1;
        }
        assert(strings_view(self.flags@).take(i as int) =~= strings_view(self.flags@));
        s.append(flags.as_str());
        match &self.filename {
            Some(f) => {
                s.append("|");
                s.append(f.as_str());
            },
            None => {},
        }
        s
    }
}

} // verus!
