//! The destination name, and nothing beyond it.
//!
//! This is the one place where Cairn looks at bytes a person's own machine
//! sent. It reads exactly the field that names where the client was going
//! (the TLS `server_name` extension, or the HTTP `Host` header) and returns
//! it: no path, no method, no other header, no body. Input is capped at
//! [`MAX_INSPECT`] bytes.
use vstd::prelude::*;
use vstd::utf8::{decode_utf8, valid_utf8};
use crate::domain::entries::Domain;
use crate::domain::normalize::{accept_wire_name, wire_outcome};
use crate::text::{
    all_digit_chars, all_digits, byte_len, chars_of, last_index_of, rfind_char, slice_of,
    split_on, string_of, trim, trim_chars, utf8_len, utf8_text,
};

verus! {

/// The most that may be read from a connection.
pub const MAX_INSPECT: usize = 2048;

/// The longest name that may be returned.
const MAX_NAME: usize = 253;

/// A big-endian 16-bit number.
pub open spec fn be16(high: u8, low: u8) -> int {
    high * 256 + low
}

/// The smaller of two numbers.
pub open spec fn min(a: int, b: int) -> int {
    if a <= b {
        a
    } else {
        b
    }
}

/// The name that raw name bytes from the wire give, if they are text that
/// names a domain.
pub open spec fn wire_name(raw: Seq<u8>) -> Option<Seq<char>> {
    if valid_utf8(raw) {
        wire_outcome(decode_utf8(raw))
    } else {
        None
    }
}

/// The `server_name` entries from `at` on: the first host-name entry's
/// name, if it fits and names a domain.
pub open spec fn server_name_entries(b: Seq<u8>, at: int) -> Option<Seq<char>>
    decreases b.len() - at,
{
    if at < 0 || at + 3 > b.len() {
        None
    } else {
        let len = be16(b[at + 1], b[at + 2]);
        let start = at + 3;
        if b[at] == 0 {
            if len > 253 || start + len > b.len() {
                None
            } else {
                wire_name(b.subrange(start, start + len))
            }
        } else if start + len > b.len() {
            None
        } else {
            server_name_entries(b, start + len)
        }
    }
}

/// The extensions of a ClientHello from `at` to `end`: the name in the first
/// `server_name` extension.
pub open spec fn extensions_from(body: Seq<u8>, at: int, end: int) -> Option<Seq<char>>
    decreases end - at,
{
    if at < 0 || at + 4 > end || end > body.len() {
        None
    } else {
        let kind = be16(body[at], body[at + 1]);
        let len = be16(body[at + 2], body[at + 3]);
        let start = at + 4;
        if kind == 0 {
            server_name_entries(body.subrange(start, min(start + len, body.len() as int)), 2)
        } else if start + len > end {
            None
        } else {
            extensions_from(body, start + len, end)
        }
    }
}

/// The name a TLS ClientHello record names, walked field by field: record
/// header, handshake header, version and random, session id, cipher suites,
/// compression methods, then the extensions.
pub open spec fn tls_name(bytes: Seq<u8>) -> Option<Seq<char>> {
    if bytes.len() < 5 {
        None
    } else {
        let body = bytes.subrange(5, min(5 + be16(bytes[3], bytes[4]), bytes.len() as int));
        if body.len() == 0 || body[0] != 1 || 38 >= body.len() {
            None
        } else {
            let suites = 38 + 1 + body[38];
            if suites + 1 >= body.len() {
                None
            } else {
                let compression = suites + 2 + be16(body[suites], body[suites + 1]);
                if compression >= body.len() {
                    None
                } else {
                    let extensions = compression + 1 + body[compression];
                    if extensions + 1 >= body.len() {
                        None
                    } else {
                        let start = extensions + 2;
                        extensions_from(
                            body,
                            start,
                            min(start + be16(body[extensions], body[extensions + 1]), body.len() as int),
                        )
                    }
                }
            }
        }
    }
}

/// `b` folded to ASCII lower case.
pub open spec fn lower_byte(b: u8) -> int {
    if 65 <= b <= 90 {
        b + 32
    } else {
        b as int
    }
}

/// A header name that is `host` in any ASCII case.
pub open spec fn is_host_field(name: Seq<u8>) -> bool {
    &&& name.len() == 4
    &&& lower_byte(name[0]) == 104
    &&& lower_byte(name[1]) == 111
    &&& lower_byte(name[2]) == 115
    &&& lower_byte(name[3]) == 116
}

/// `line` without one trailing carriage return.
pub open spec fn without_cr(line: Seq<u8>) -> Seq<u8> {
    if line.len() > 0 && line.last() == 13 {
        line.drop_last()
    } else {
        line
    }
}

/// The first position of `b` in `s`, at or after `from`.
pub open spec fn first_byte(s: Seq<u8>, b: u8, from: int) -> Option<int>
    decreases s.len() - from,
{
    if from < 0 || from >= s.len() {
        None
    } else if s[from] == b {
        Some(from)
    } else {
        first_byte(s, b, from + 1)
    }
}

/// The name a `Host` header value gives: white space and a numeric port
/// dropped, and nothing longer than a domain may be.
pub open spec fn host_value_name(value: Seq<char>) -> Option<Seq<char>> {
    let host = trim(value);
    let cut = last_index_of(host, ':', host.len() as int);
    let name = if cut is Some && all_digits(host.subrange(cut->0 + 1, host.len() as int)) {
        host.subrange(0, cut->0)
    } else {
        host
    };
    if utf8_len(name) > 253 {
        None
    } else {
        wire_outcome(name)
    }
}

/// The name in the first `Host` header among `lines[k..]`, stopping at the
/// blank line that ends the headers. A line without a colon, or whose halves
/// are not text, is passed over.
pub open spec fn http_host_from(lines: Seq<Seq<u8>>, k: int) -> Option<Seq<char>>
    decreases lines.len() - k,
{
    if k < 0 || k >= lines.len() {
        None
    } else {
        let line = without_cr(lines[k]);
        if line.len() == 0 {
            None
        } else {
            match first_byte(line, 58, 0) {
                Some(colon) => {
                    let name = line.subrange(0, colon);
                    let value = line.subrange(colon + 1, line.len() as int);
                    if valid_utf8(name) && valid_utf8(value) && is_host_field(name) {
                        host_value_name(decode_utf8(value))
                    } else {
                        http_host_from(lines, k + 1)
                    }
                },
                None => http_host_from(lines, k + 1),
            }
        }
    }
}

/// The destination name the first bytes of a connection name: a TLS
/// handshake record is read as a ClientHello, anything else as an HTTP
/// request. Only the first [`MAX_INSPECT`] bytes are looked at.
pub open spec fn destination_name(bytes: Seq<u8>) -> Option<Seq<char>> {
    let capped = bytes.take(min(bytes.len() as int, 2048));
    if capped.len() == 0 {
        None
    } else if capped[0] == 0x16 {
        tls_name(capped)
    } else {
        http_host_from(split_on(capped, 10u8), 0)
    }
}

/// A domain result as its name.
pub open spec fn name_of(found: Option<Domain>) -> Option<Seq<char>> {
    match found {
        Some(domain) => Some(domain@),
        None => None,
    }
}

/// `bytes[from..to]` as a new vector.
fn slice_bytes(bytes: &[u8], from: usize, to: usize) -> (piece: Vec<u8>)
    requires
        from <= to <= bytes@.len(),
    ensures
        piece@ == bytes@.subrange(from as int, to as int),
{
    let mut piece: Vec<u8> = Vec::new();
    let mut i = from;
    while i < to
        invariant
            from <= i <= to,
            to <= bytes@.len(),
            piece@ == bytes@.subrange(from as int, i as int),
        decreases to - i,
    {
        piece.push(bytes[i]);
        assert(bytes@.subrange(from as int, i + 1) =~= bytes@.subrange(from as int, i as int).push(
            bytes@[i as int],
        ));
        i = i + 1;
    }
    piece
}

/// The name that raw name bytes give, if any.
fn name_from_raw(raw: &[u8]) -> (found: Option<Domain>)
    ensures
        name_of(found) == wire_name(raw@),
{
    match utf8_text(raw) {
        Some(text) => accept_wire_name(text),
        None => None,
    }
}

/// A big-endian 16-bit number.
fn read16(high: u8, low: u8) -> (value: usize)
    ensures
        value == be16(high, low),
        value <= 65535,
{
    high as usize * 256 + low as usize
}

/// The `server_name` extension body: a list length, then entries of a name
/// type, a name length and a name.
fn server_name_extension(b: &[u8]) -> (found: Option<Domain>)
    requires
        b@.len() <= 2048,
    ensures
        name_of(found) == server_name_entries(b@, 2),
{
    let mut at: usize = 2;
    while at + 3 <= b.len()
        invariant
            2 <= at <= 2048 + 65538,
            b@.len() <= 2048,
            server_name_entries(b@, at as int) == server_name_entries(b@, 2),
        decreases 2048 + 65538 - at,
    {
        let name_type = b[at];
        let len = read16(b[at + 1], b[at + 2]);
        at = at + 3;
        if name_type == 0 {
            if len > MAX_NAME || at + len > b.len() {
                return None;
            }
            let raw = slice_bytes(b, at, at + len);
            return name_from_raw(raw.as_slice());
        }
        at = at + len;
    }
    None
}

/// Walk the extensions of a ClientHello body from `at` to `end`.
fn extensions(body: &[u8], from: usize, end: usize) -> (found: Option<Domain>)
    requires
        body@.len() <= 2048,
        end <= body@.len(),
        from <= 2048 + 65538,
    ensures
        name_of(found) == extensions_from(body@, from as int, end as int),
{
    let mut at = from;
    while at + 4 <= end
        invariant
            at <= 70000,
            end <= body@.len() <= 2048,
            extensions_from(body@, at as int, end as int) == extensions_from(
                body@,
                from as int,
                end as int,
            ),
        decreases 70000 - at,
    {
        let kind = read16(body[at], body[at + 1]);
        let len = read16(body[at + 2], body[at + 3]);
        at = at + 4;
        if kind == 0 {
            let stop = if at + len < body.len() {
                at + len
            } else {
                body.len()
            };
            let extension = slice_bytes(body, at, stop);
            return server_name_extension(extension.as_slice());
        }
        at = at + len;
    }
    None
}

/// Walk a ClientHello to its `server_name` extension. Every step is
/// checked against the bytes there are; a truncated or malformed hello gives
/// `None` rather than a guess.
fn tls_server_name(bytes: &[u8]) -> (found: Option<Domain>)
    requires
        bytes@.len() <= 2048,
    ensures
        name_of(found) == tls_name(bytes@),
{
    if bytes.len() < 5 {
        return None;
    }
    let record_len = read16(bytes[3], bytes[4]);
    let end = if 5 + record_len < bytes.len() {
        5 + record_len
    } else {
        bytes.len()
    };
    let body = slice_bytes(bytes, 5, end);
    if body.len() == 0 || body[0] != 1 || 38 >= body.len() {
        return None;
    }
    let suites = 38 + 1 + body[38] as usize;
    if suites + 1 >= body.len() {
        return None;
    }
    let compression = suites + 2 + read16(body[suites], body[suites + 1]);
    if compression >= body.len() {
        return None;
    }
    let extensions_at = compression + 1 + body[compression] as usize;
    if extensions_at + 1 >= body.len() {
        return None;
    }
    let start = extensions_at + 2;
    let extensions_len = read16(body[extensions_at], body[extensions_at + 1]);
    let stop = if start + extensions_len < body.len() {
        start + extensions_len
    } else {
        body.len()
    };
    extensions(body.as_slice(), start, stop)
}

/// The first position of `b` in `s`.
fn position_of_byte(s: &Vec<u8>, b: u8) -> (found: Option<usize>)
    ensures
        match found {
            Some(at) => first_byte(s@, b, 0) == Some(at as int) && at < s@.len(),
            None => first_byte(s@, b, 0) is None,
        },
{
    let mut i: usize = 0;
    while i < s.len()
        invariant
            i <= s@.len(),
            first_byte(s@, b, i as int) == first_byte(s@, b, 0),
        decreases s.len() - i,
    {
        if s[i] == b {
            return Some(i);
        }
        i = i + 1;
    }
    None
}

/// `b` folded to ASCII lower case.
fn fold_byte(b: u8) -> (folded: u8)
    ensures
        folded == lower_byte(b),
{
    if 65 <= b && b <= 90 {
        b + 32
    } else {
        b
    }
}

/// The name a `Host` header value gives.
fn host_from_value(value: &str) -> (found: Option<Domain>)
    ensures
        name_of(found) == host_value_name(value@),
{
    let chars = chars_of(value);
    let host = trim_chars(chars.as_slice());
    let name = match rfind_char(host.as_slice(), ':') {
        Some(at) => {
            proof {
                lemma_last_colon(host@, host@.len() as int);
            }
            let n = host.len();
            assert(at < n);
            let port = slice_of(host.as_slice(), at + 1, n);
            if all_digit_chars(port.as_slice()) {
                slice_of(host.as_slice(), 0, at)
            } else {
                host
            }
        },
        None => host,
    };
    let text = string_of(name.as_slice());
    if byte_len(text.as_str()) > MAX_NAME {
        return None;
    }
    accept_wire_name(text.as_str())
}

/// Where a backward search for `:` can land.
proof fn lemma_last_colon(s: Seq<char>, n: int)
    requires
        n <= s.len(),
    ensures
        last_index_of(s, ':', n) matches Some(at) ==> 0 <= at < n,
    decreases n,
{
    if n > 0 && s[n - 1] != ':' {
        lemma_last_colon(s, n - 1);
    }
}

/// `s` cut at every newline.
fn split_lines(s: &[u8]) -> (pieces: Vec<Vec<u8>>)
    ensures
        pieces@.len() == split_on(s@, 10u8).len(),
        forall|k: int| 0 <= k < pieces@.len() ==> (#[trigger] pieces@[k])@ == split_on(s@, 10u8)[k],
{
    let mut pieces: Vec<Vec<u8>> = Vec::new();
    let mut start: usize = 0;
    let mut i: usize = 0;
    assert(split_on(s@.subrange(0, 0), 10u8) =~= seq![Seq::<u8>::empty()]) by {
        assert(s@.subrange(0, 0) =~= Seq::<u8>::empty());
    }
    while i < s.len()
        invariant
            start <= i <= s@.len(),
            start == 0 || s@[start - 1] == 10,
            forall|k: int| start <= k < i ==> s@[k] != 10,
            pieces@.len() == split_on(s@.subrange(0, start as int), 10u8).drop_last().len(),
            forall|k: int|
                0 <= k < pieces@.len() ==> (#[trigger] pieces@[k])@ == split_on(
                    s@.subrange(0, start as int),
                    10u8,
                ).drop_last()[k],
        decreases s.len() - i,
    {
        if s[i] == 10u8 {
            let piece = slice_bytes(s, start, i);
            let ghost done = split_on(s@.subrange(0, start as int), 10u8).drop_last();
            proof {
                crate::text::lemma_split_extend(s@, 10u8, start as int, i as int);
                let upto = s@.subrange(0, i + 1);
                assert(upto.drop_last() =~= s@.subrange(0, i as int));
                assert(split_on(upto, 10u8).drop_last() =~= done.push(piece@));
            }
            pieces.push(piece);
            start = i + 1;
        }
        i = i + 1;
    }
    let piece = slice_bytes(s, start, s.len());
    proof {
        crate::text::lemma_split_extend(s@, 10u8, start as int, s@.len() as int);
        assert(s@.subrange(0, s@.len() as int) =~= s@);
    }
    pieces.push(piece);
    pieces
}

/// Read the `Host` header of a plain HTTP request, and nothing else on the
/// request line or in any other header.
fn http_host(bytes: &[u8]) -> (found: Option<Domain>)
    ensures
        name_of(found) == http_host_from(split_on(bytes@, 10u8), 0),
{
    let lines = split_lines(bytes);
    let ghost views = split_on(bytes@, 10u8);
    let mut k: usize = 0;
    while k < lines.len()
        invariant
            k <= lines@.len() == views.len(),
            views == split_on(bytes@, 10u8),
            forall|j: int| 0 <= j < lines@.len() ==> (#[trigger] lines@[j])@ == views[j],
            http_host_from(views, k as int) == http_host_from(views, 0),
        decreases lines.len() - k,
    {
        let raw = &lines[k];
        assert(raw@ == views[k as int]);
        let line = if raw.len() > 0 && raw[raw.len() - 1] == 13u8 {
            slice_bytes(raw.as_slice(), 0, raw.len() - 1)
        } else {
            slice_bytes(raw.as_slice(), 0, raw.len())
        };
        assert(raw@.subrange(0, raw@.len() as int) =~= raw@);
        assert(line@ == without_cr(views[k as int]));
        if line.len() == 0 {
            return None;
        }
        match position_of_byte(&line, 58u8) {
            Some(colon) => {
                let name = slice_bytes(line.as_slice(), 0, colon);
                let value = slice_bytes(line.as_slice(), colon + 1, line.len());
                match utf8_text(name.as_slice()) {
                    Some(_) => {
                        match utf8_text(value.as_slice()) {
                            Some(text) => {
                                if name.len() == 4 && fold_byte(name[0]) == 104 && fold_byte(
                                    name[1],
                                ) == 111 && fold_byte(name[2]) == 115 && fold_byte(name[3])
                                    == 116 {
                                    return host_from_value(text);
                                }
                            },
                            None => {},
                        }
                    },
                    None => {},
                }
            },
            None => {},
        }
        k = k + 1;
    }
    None
}

/// Read the destination name a client volunteered: the TLS `server_name`
/// when the bytes open a handshake record, the HTTP `Host` header
/// otherwise. `None` when the bytes name no destination.
pub fn parse_destination_name(bytes: &[u8]) -> (found: Option<Domain>)
    ensures
        name_of(found) == destination_name(bytes@),
{
    let limit = if bytes.len() < MAX_INSPECT {
        bytes.len()
    } else {
        MAX_INSPECT
    };
    let capped = slice_bytes(bytes, 0, limit);
    assert(capped@ =~= bytes@.take(min(bytes@.len() as int, 2048)));
    if capped.len() == 0 {
        return None;
    }
    if capped[0] == 0x16 {
        tls_server_name(capped.as_slice())
    } else {
        http_host(capped.as_slice())
    }
}

} // verus!
