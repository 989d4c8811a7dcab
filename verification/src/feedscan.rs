//! Which feed documents `feed_rs` reads without panicking. Two of its
//! paths can panic. It switches the text decoder when it reads an XML
//! declaration that names an encoding, and asserts while doing so that its
//! first 64 bytes are still being decoded. Its time-value parser unwraps
//! integer parses of the digit runs it finds (an overflowing number, a
//! digit outside ASCII); it is reached only through the text of
//! `<itunes:duration>` and the `start`, `end` and `time` attribute values
//! of Media RSS elements. The tests here follow how the parser decodes the
//! document and coalesces the text of an element.
use vstd::prelude::*;

verus! {

/// `p` occurs in `s` at `i`.
pub open spec fn occurs_bytes(s: Seq<u8>, p: Seq<u8>, i: int) -> bool {
    0 <= i && i + p.len() <= s.len() && s.subrange(i, i + p.len()) == p
}

/// `p` occurs somewhere in `s`.
pub open spec fn has_bytes(s: Seq<u8>, p: Seq<u8>) -> bool {
    exists|i: int| occurs_bytes(s, p, i)
}

/// `p` as UTF-16 little-endian code units, for ASCII `p`.
pub open spec fn wide_le(p: Seq<u8>) -> Seq<u8> {
    Seq::new(2 * p.len(), |i: int| if i % 2 == 0 { p[i / 2] } else { 0u8 })
}

/// `p` as UTF-16 big-endian code units, for ASCII `p`.
pub open spec fn wide_be(p: Seq<u8>) -> Seq<u8> {
    Seq::new(2 * p.len(), |i: int| if i % 2 == 0 { 0u8 } else { p[i / 2] })
}

/// XML white space: space, tab, line feed, carriage return.
pub open spec fn is_xml_ws(b: u8) -> bool {
    b == 32 || b == 9 || b == 10 || b == 13
}

/// The first index at or after `j` that holds no XML white space.
pub open spec fn skip_ws(s: Seq<u8>, j: int) -> int
    decreases s.len() - j,
{
    if j < 0 || j >= s.len() {
        j
    } else if is_xml_ws(s[j]) {
        skip_ws(s, j + 1)
    } else {
        j
    }
}

/// The iTunes podcast namespace.
pub open spec fn itunes_ns() -> Seq<u8> {
    vstd::utf8::encode_utf8("http://www.itunes.com/dtds/podcast-1.0.dtd"@)
}

/// The Media RSS namespace.
pub open spec fn mrss_ns() -> Seq<u8> {
    vstd::utf8::encode_utf8("http://search.yahoo.com/mrss/"@)
}

/// `b` is an ASCII digit.
pub open spec fn is_digit_byte(b: u8) -> bool {
    48 <= b <= 57
}

/// The bytes `duration`.
pub open spec fn duration_name() -> Seq<u8> {
    seq![100u8, 117u8, 114u8, 97u8, 116u8, 105u8, 111u8, 110u8]
}

/// `<![CDATA[`.
pub open spec fn cdata_open() -> Seq<u8> {
    seq![60u8, 33u8, 91u8, 67u8, 68u8, 65u8, 84u8, 65u8, 91u8]
}

/// `]]>`.
pub open spec fn cdata_close() -> Seq<u8> {
    seq![93u8, 93u8, 62u8]
}

/// `<!--`.
pub open spec fn comment_open() -> Seq<u8> {
    seq![60u8, 33u8, 45u8, 45u8]
}

/// `-->`.
pub open spec fn comment_close() -> Seq<u8> {
    seq![45u8, 45u8, 62u8]
}

/// `?>`.
pub open spec fn pi_close() -> Seq<u8> {
    seq![63u8, 62u8]
}

/// A quote byte: `"` or `'`.
pub open spec fn is_quote(b: u8) -> bool {
    b == 34u8 || b == 39u8
}

/// Where a scan of a time value stands.
#[derive(Clone, Copy)]
pub enum TimeScan {
    /// Inside a tag, outside any quoted attribute value.
    Tag,
    /// Inside a quoted attribute value of a tag, closed by the quote.
    TagQuote(u8),
    /// In the text of an element.
    Text,
    /// Inside a CDATA section of the text.
    CData,
    /// Inside a comment within the text.
    Comment,
    /// Inside a processing instruction within the text.
    Pi,
    /// Inside an attribute value closed by the quote.
    Value(u8),
}

/// The count of significant digits (leading zeros left out) of the digit
/// run that `b` continues, or none when `b` is outside ASCII or makes that
/// count exceed fifteen: a number of at most fifteen significant digits,
/// read as hours and multiplied out to seconds, fits in a `u64`.
pub open spec fn digit_step(sig: nat, b: u8) -> Option<nat> {
    if b >= 128u8 {
        None
    } else if !is_digit_byte(b) {
        Some(0)
    } else if b == 48u8 && sig == 0 {
        Some(0)
    } else if sig < 15 {
        Some(sig + 1)
    } else {
        None
    }
}

/// Whether the time value reached from position `i` in mode `m`, with `sig`
/// significant digits in the run so far, is safe to parse. A tag is read
/// up to its `>` outside quotes; the element's text then runs, as the
/// parser coalesces it, through CDATA sections, comments and processing
/// instructions up to the next tag. Its bytes must be ASCII, hold no
/// character reference, no `<!` other than a comment or CDATA section, and
/// no run of more than fifteen significant digits. An attribute value runs
/// up to its closing quote under the same rules.
pub open spec fn scan_ok(s: Seq<u8>, m: TimeScan, i: int, sig: nat) -> bool
    decreases s.len() - i,
{
    if i < 0 || i >= s.len() {
        true
    } else {
        let b = s[i];
        match m {
            TimeScan::Tag => if b == 62u8 {
                scan_ok(s, TimeScan::Text, i + 1, 0)
            } else if is_quote(b) {
                scan_ok(s, TimeScan::TagQuote(b), i + 1, 0)
            } else {
                scan_ok(s, TimeScan::Tag, i + 1, 0)
            },
            TimeScan::TagQuote(q) => if b == q {
                scan_ok(s, TimeScan::Tag, i + 1, 0)
            } else {
                scan_ok(s, TimeScan::TagQuote(q), i + 1, 0)
            },
            TimeScan::Text => if b == 60u8 {
                if occurs_bytes(s, cdata_open(), i) {
                    scan_ok(s, TimeScan::CData, i + 9, sig)
                } else if occurs_bytes(s, comment_open(), i) {
                    scan_ok(s, TimeScan::Comment, i + 4, sig)
                } else if i + 1 < s.len() && s[i + 1] == 63u8 {
                    scan_ok(s, TimeScan::Pi, i + 2, sig)
                } else {
                    !(i + 1 < s.len() && s[i + 1] == 33u8)
                }
            } else if b == 38u8 && i + 1 < s.len() && s[i + 1] == 35u8 {
                false
            } else {
                match digit_step(sig, b) {
                    None => false,
                    Some(n) => scan_ok(s, TimeScan::Text, i + 1, n),
                }
            },
            TimeScan::CData => if occurs_bytes(s, cdata_close(), i) {
                scan_ok(s, TimeScan::Text, i + 3, sig)
            } else {
                match digit_step(sig, b) {
                    None => false,
                    Some(n) => scan_ok(s, TimeScan::CData, i + 1, n),
                }
            },
            TimeScan::Comment => if occurs_bytes(s, comment_close(), i) {
                scan_ok(s, TimeScan::Text, i + 3, sig)
            } else {
                scan_ok(s, TimeScan::Comment, i + 1, sig)
            },
            TimeScan::Pi => if occurs_bytes(s, pi_close(), i) {
                scan_ok(s, TimeScan::Text, i + 2, sig)
            } else {
                scan_ok(s, TimeScan::Pi, i + 1, sig)
            },
            TimeScan::Value(q) => if b == q {
                true
            } else if b == 38u8 && i + 1 < s.len() && s[i + 1] == 35u8 {
                false
            } else {
                match digit_step(sig, b) {
                    None => false,
                    Some(n) => scan_ok(s, TimeScan::Value(q), i + 1, n),
                }
            },
        }
    }
}

/// A tag whose local name is `duration` may start at `p`: `duration`
/// follows `<` or a prefix's `:`, and white space, `/` or `>` follows it.
pub open spec fn duration_at(s: Seq<u8>, p: int) -> bool {
    &&& occurs_bytes(s, duration_name(), p)
    &&& p >= 1 && (s[p - 1] == 60u8 || s[p - 1] == 58u8)
    &&& p + 8 < s.len()
    &&& (is_xml_ws(s[p + 8]) || s[p + 8] == 47u8 || s[p + 8] == 62u8)
}

/// The text of every element that may be an `<itunes:duration>` is safe.
pub open spec fn durations_ok(s: Seq<u8>) -> bool {
    forall|p: int| duration_at(s, p) ==> scan_ok(s, TimeScan::Tag, p + 8, 0)
}

/// An attribute named `n` (no prefix) may be given a value at `p`: `n`
/// starts after white space or a quote, and optional white space and `=`
/// follow it.
pub open spec fn attr_at(s: Seq<u8>, n: Seq<u8>, p: int) -> bool {
    &&& occurs_bytes(s, n, p)
    &&& p >= 1 && (is_xml_ws(s[p - 1]) || is_quote(s[p - 1]))
    &&& 0 <= skip_ws(s, p + n.len()) < s.len()
    &&& s[skip_ws(s, p + n.len())] == 61u8
}

/// The value given to the attribute named `n` at `p`, when quoted, is
/// safe; an unquoted value is dropped by the parser.
pub open spec fn attr_value_ok(s: Seq<u8>, n: Seq<u8>, p: int) -> bool {
    let v = skip_ws(s, skip_ws(s, p + n.len()) + 1);
    (0 <= v < s.len() && is_quote(s[v])) ==> scan_ok(s, TimeScan::Value(s[v]), v + 1, 0)
}

/// The names of the Media RSS attributes that hold time values.
pub open spec fn time_attr_names() -> Seq<Seq<u8>> {
    seq![
        seq![115u8, 116u8, 97u8, 114u8, 116u8],
        seq![101u8, 110u8, 100u8],
        seq![116u8, 105u8, 109u8, 101u8],
    ]
}

/// Every value given to a `start`, `end` or `time` attribute is safe.
pub open spec fn time_attrs_ok(s: Seq<u8>) -> bool {
    forall|k: int, p: int|
        0 <= k < 3 && #[trigger] attr_at(s, time_attr_names()[k], p) ==> attr_value_ok(
            s,
            time_attr_names()[k],
            p,
        )
}

/// `p` occurs within the first 64 bytes of `s`.
pub open spec fn in_head(s: Seq<u8>, p: Seq<u8>) -> bool {
    exists|i: int| occurs_bytes(s, p, i) && i + p.len() <= 64
}

/// The stateful ISO-2022-JP decoder may be in use with escape sequences: a
/// declaration in the first 64 bytes names it (every label of it holds
/// `2022`) and the document holds an escape byte. Escapes vanish from the
/// decoded text, so the bytes cannot be read as the parser reads them.
pub open spec fn escapes_hide_text(doc: Seq<u8>) -> bool {
    in_head(doc, seq![50u8, 48u8, 50u8, 50u8]) && has_bytes(doc, seq![27u8])
}

/// The declaration at the start may switch decoding to UTF-16 after the
/// first 64 bytes (it names an encoding) and the document holds a NUL byte,
/// which UTF-16 text needs for any markup or namespace character: text
/// decoded on both sides of the switch cannot be read from the bytes alone.
pub open spec fn switch_may_widen(doc: Seq<u8>) -> bool {
    &&& has_bytes(doc, seq![0u8])
    &&& (decl_at(doc, 0) && names_encoding(doc, 5)) || (decl_at(doc, 3) && names_encoding(doc, 8))
}

/// The time values of `doc` are safe to parse. The parser matches the iTunes
/// and Media RSS namespaces in the decoded text, which holds them only if
/// the bytes do (as such, or in UTF-16 when it decodes UTF-16), unless
/// ISO-2022-JP escapes hide text. A namespace given in UTF-16 is not looked
/// into.
pub open spec fn times_safe(doc: Seq<u8>) -> bool {
    &&& !escapes_hide_text(doc)
    &&& !switch_may_widen(doc)
    &&& !has_bytes(doc, wide_le(itunes_ns())) && !has_bytes(doc, wide_be(itunes_ns()))
    &&& !has_bytes(doc, wide_le(mrss_ns())) && !has_bytes(doc, wide_be(mrss_ns()))
    &&& has_bytes(doc, itunes_ns()) ==> durations_ok(doc)
    &&& has_bytes(doc, mrss_ns()) ==> time_attrs_ok(doc)
}

/// `<?xml`.
pub open spec fn xml_decl_open() -> Seq<u8> {
    seq![60u8, 63u8, 120u8, 109u8, 108u8]
}

/// `encoding`.
pub open spec fn encoding_name() -> Seq<u8> {
    seq![101u8, 110u8, 99u8, 111u8, 100u8, 105u8, 110u8, 103u8]
}

/// An XML declaration starts at `i`: `<?xml` followed by white space or `?`.
pub open spec fn decl_at(s: Seq<u8>, i: int) -> bool {
    occurs_bytes(s, xml_decl_open(), i) && i + 5 < s.len() && (is_xml_ws(s[i + 5]) || s[i + 5] == 63u8)
}

/// `encoding` occurs at or after `j` before the next `?>`: the declaration
/// there may name an encoding.
pub open spec fn names_encoding(s: Seq<u8>, j: int) -> bool
    decreases s.len() - j,
{
    if j < 0 || j >= s.len() || occurs_bytes(s, pi_close(), j) {
        false
    } else if occurs_bytes(s, encoding_name(), j) {
        true
    } else {
        names_encoding(s, j + 1)
    }
}

/// `s` begins with the UTF-8 byte order mark.
pub open spec fn utf8_bom_first(s: Seq<u8>) -> bool {
    s.len() >= 3 && s[0] == 0xEFu8 && s[1] == 0xBBu8 && s[2] == 0xBFu8
}

/// `?>` ends within the first 64 bytes, after `i`.
pub open spec fn closed_early(s: Seq<u8>, i: int) -> bool {
    exists|k: int| i < k && k + 2 <= 64 && occurs_bytes(s, pi_close(), k)
}

/// Every XML declaration of `doc` that names an encoding is read while the
/// parser may still switch decoders: only at the very start (after a UTF-8
/// byte order mark at most) and closed within the first 64 bytes. A
/// document with a declaration in UTF-16 names no encoding in UTF-16.
pub open spec fn decl_safe(doc: Seq<u8>) -> bool {
    &&& (has_bytes(doc, wide_le(xml_decl_open())) || has_bytes(doc, wide_be(xml_decl_open())))
        ==> !has_bytes(doc, wide_le(encoding_name())) && !has_bytes(doc, wide_be(encoding_name()))
    &&& forall|i: int|
        decl_at(doc, i) && names_encoding(doc, i + 5) ==> (i == 0 || (i == 3 && utf8_bom_first(doc)))
            && closed_early(doc, i)
}

/// A document `feed_rs` reads without panicking: its declarations and its
/// time values are safe.
pub open spec fn feed_safe(doc: Seq<u8>) -> bool {
    decl_safe(doc) && times_safe(doc)
}

fn occurs_exec(s: &[u8], p: &[u8], i: usize) -> (r: bool)
    ensures
        r == occurs_bytes(s@, p@, i as int),
{
    if i > s.len() || p.len() > s.len() - i {
        return false;
    }
    let mut j: usize = 0;
    let n = s.len();
    while j < p.len() && s[i + j] == p[j]
        invariant
            n == s@.len(),
            j <= p@.len(),
            i + p@.len() <= s@.len(),
            forall|k: int| 0 <= k < j ==> s@[i + k] == p@[k],
        decreases p@.len() - j,
    {
        j = j + 1;
    }
    proof {
        if j == p.len() {
            assert(s@.subrange(i as int, i + p@.len()) =~= p@);
        } else {
            assert(s@.subrange(i as int, i + p@.len())[j as int] != p@[j as int]);
        }
    }
    j == p.len()
}

/// Whether `p` occurs in `s`.
pub fn has_bytes_exec(s: &[u8], p: &[u8]) -> (r: bool)
    ensures
        r == has_bytes(s@, p@),
{
    if p.len() > s.len() {
        return false;
    }
    if p.len() == 0 {
        assert(s@.subrange(0, 0) =~= p@);
        assert(occurs_bytes(s@, p@, 0));
        return true;
    }
    let mut i: usize = 0;
    let mut found = false;
    let n = s.len();
    while i <= s.len() - p.len() && !found
        invariant
            n == s@.len(),
            0 < p@.len() <= s@.len(),
            i <= s@.len() - p@.len() + 1,
            found ==> has_bytes(s@, p@),
            !found ==> forall|k: int| 0 <= k < i ==> !occurs_bytes(s@, p@, k),
        decreases s@.len() - p@.len() + 1 - i,
    {
        found = occurs_exec(s, p, i);
        i = i + 1;
    }
    proof {
        if !found {
            assert forall|k: int| !occurs_bytes(s@, p@, k) by {
                if 0 <= k < i {
                } else if k >= i {
                    assert(k + p@.len() > s@.len());
                }
            }
        }
    }
    found
}

fn widen(p: &[u8], big_endian: bool) -> (r: Vec<u8>)
    ensures
        r@ == if big_endian {
            wide_be(p@)
        } else {
            wide_le(p@)
        },
{
    let mut r: Vec<u8> = Vec::new();
    let mut i: usize = 0;
    while i < p.len()
        invariant
            i <= p@.len(),
            r@.len() == 2 * i,
            forall|k: int|
                0 <= k < 2 * i ==> r@[k] == if big_endian {
                    wide_be(p@)[k]
                } else {
                    wide_le(p@)[k]
                },
        decreases p@.len() - i,
    {
        if big_endian {
            r.push(0u8);
            r.push(p[i]);
        } else {
            r.push(p[i]);
            r.push(0u8);
        }
        i = i + 1;
    }
    proof {
        if big_endian {
            assert(r@ =~= wide_be(p@));
        } else {
            assert(r@ =~= wide_le(p@));
        }
    }
    r
}

fn skip_ws_exec(s: &[u8], j: usize) -> (r: usize)
    requires
        j <= s@.len(),
    ensures
        r as int == skip_ws(s@, j as int),
        j <= r <= s@.len(),
{
    let mut k = j;
    while k < s.len() && (s[k] == 32u8 || s[k] == 9u8 || s[k] == 10u8 || s[k] == 13u8)
        invariant
            j <= k <= s@.len(),
            skip_ws(s@, j as int) == skip_ws(s@, k as int),
        decreases s@.len() - k,
    {
        k = k + 1;
    }
    k
}

fn digit_step_exec(sig: usize, b: u8) -> (r: Option<usize>)
    requires
        sig <= 15,
    ensures
        match digit_step(sig as nat, b) {
            None => r is None,
            Some(n) => r == Some(n as usize) && n <= 15,
        },
{
    if b >= 128u8 {
        None
    } else if !(48u8 <= b && b <= 57u8) {
        Some(0)
    } else if b == 48u8 && sig == 0 {
        Some(0)
    } else if sig < 15 {
        Some(sig + 1)
    } else {
        None
    }
}

/// Whether the time value reached from `i` in mode `m` is safe (see
/// [`scan_ok`]).
fn scan_exec(s: &[u8], m: TimeScan, i: usize, sig: usize) -> (r: bool)
    requires
        sig <= 15,
    ensures
        r == scan_ok(s@, m, i as int, sig as nat),
{
    let cdata_open_a: [u8; 9] = [60u8, 33u8, 91u8, 67u8, 68u8, 65u8, 84u8, 65u8, 91u8];
    let cdata_close_a: [u8; 3] = [93u8, 93u8, 62u8];
    let comment_open_a: [u8; 4] = [60u8, 33u8, 45u8, 45u8];
    let comment_close_a: [u8; 3] = [45u8, 45u8, 62u8];
    let pi_close_a: [u8; 2] = [63u8, 62u8];
    assert(cdata_open_a@ =~= cdata_open());
    assert(cdata_close_a@ =~= cdata_close());
    assert(comment_open_a@ =~= comment_open());
    assert(comment_close_a@ =~= comment_close());
    assert(pi_close_a@ =~= pi_close());
    let mut mode = m;
    let mut k = i;
    let mut run = sig;
    let n = s.len();
    while k < n
        invariant
            n == s@.len(),
            run <= 15,
            cdata_open_a@ == cdata_open(),
            cdata_close_a@ == cdata_close(),
            comment_open_a@ == comment_open(),
            comment_close_a@ == comment_close(),
            pi_close_a@ == pi_close(),
            scan_ok(s@, m, i as int, sig as nat) == scan_ok(s@, mode, k as int, run as nat),
        decreases n - k,
    {
        let b = s[k];
        match mode {
            TimeScan::Tag => {
                if b == 62u8 {
                    mode = TimeScan::Text;
                    run = 0;
                } else if b == 34u8 || b == 39u8 {
                    mode = TimeScan::TagQuote(b);
                    run = 0;
                } else {
                    run = 0;
                }
                k = k + 1;
            },
            TimeScan::TagQuote(q) => {
                if b == q {
                    mode = TimeScan::Tag;
                }
                run = 0;
                k = k + 1;
            },
            TimeScan::Text => {
                if b == 60u8 {
                    if occurs_exec(s, cdata_open_a.as_slice(), k) {
                        mode = TimeScan::CData;
                        k = k + 9;
                    } else if occurs_exec(s, comment_open_a.as_slice(), k) {
                        mode = TimeScan::Comment;
                        k = k + 4;
                    } else if k + 1 < n && s[k + 1] == 63u8 {
                        mode = TimeScan::Pi;
                        k = k + 2;
                    } else {
                        return !(k + 1 < n && s[k + 1] == 33u8);
                    }
                } else if b == 38u8 && k + 1 < n && s[k + 1] == 35u8 {
                    return false;
                } else {
                    match digit_step_exec(run, b) {
                        None => {
                            return false;
                        },
                        Some(r2) => {
                            run = r2;
                            k = k + 1;
                        },
                    }
                }
            },
            TimeScan::CData => {
                if occurs_exec(s, cdata_close_a.as_slice(), k) {
                    mode = TimeScan::Text;
                    k = k + 3;
                } else {
                    match digit_step_exec(run, b) {
                        None => {
                            return false;
                        },
                        Some(r2) => {
                            run = r2;
                            k = k + 1;
                        },
                    }
                }
            },
            TimeScan::Comment => {
                if occurs_exec(s, comment_close_a.as_slice(), k) {
                    mode = TimeScan::Text;
                    k = k + 3;
                } else {
                    k = k + 1;
                }
            },
            TimeScan::Pi => {
                if occurs_exec(s, pi_close_a.as_slice(), k) {
                    mode = TimeScan::Text;
                    k = k + 2;
                } else {
                    k = k + 1;
                }
            },
            TimeScan::Value(q) => {
                if b == q {
                    return true;
                } else if b == 38u8 && k + 1 < n && s[k + 1] == 35u8 {
                    return false;
                } else {
                    match digit_step_exec(run, b) {
                        None => {
                            return false;
                        },
                        Some(r2) => {
                            run = r2;
                            k = k + 1;
                        },
                    }
                }
            },
        }
    }
    true
}

fn durations_ok_exec(s: &[u8]) -> (r: bool)
    ensures
        r == durations_ok(s@),
{
    let name: [u8; 8] = [100u8, 117u8, 114u8, 97u8, 116u8, 105u8, 111u8, 110u8];
    assert(name@ =~= duration_name());
    let mut p: usize = 1;
    while p < s.len()
        invariant
            1 <= p,
            name@ == duration_name(),
            forall|j: int| 0 <= j < p && duration_at(s@, j) ==> scan_ok(s@, TimeScan::Tag, j + 8, 0),
        decreases s@.len() - p,
    {
        if occurs_exec(s, name.as_slice(), p) && (s[p - 1] == 60u8 || s[p - 1] == 58u8) && p + 8 < s.len() {
            let c = s[p + 8];
            if c == 32u8 || c == 9u8 || c == 10u8 || c == 13u8 || c == 47u8 || c == 62u8 {
                assert(duration_at(s@, p as int));
                if !scan_exec(s, TimeScan::Tag, p + 8, 0) {
                    return false;
                }
            }
        }
        p = p + 1;
    }
    assert forall|j: int| duration_at(s@, j) implies scan_ok(s@, TimeScan::Tag, j + 8, 0) by {
        assert(0 <= j < s@.len());
    }
    true
}

fn attr_values_ok_exec(s: &[u8], name: &[u8]) -> (r: bool)
    ensures
        r == forall|p: int| attr_at(s@, name@, p) ==> attr_value_ok(s@, name@, p),
{
    let mut p: usize = 1;
    while p < s.len()
        invariant
            1 <= p,
            forall|j: int| 0 <= j < p && attr_at(s@, name@, j) ==> attr_value_ok(s@, name@, j),
        decreases s@.len() - p,
    {
        let before = s[p - 1];
        if occurs_exec(s, name, p) && (before == 32u8 || before == 9u8 || before == 10u8 || before == 13u8
            || before == 34u8 || before == 39u8) {
            let e = skip_ws_exec(s, p + name.len());
            if e < s.len() && s[e] == 61u8 {
                assert(attr_at(s@, name@, p as int));
                let v = skip_ws_exec(s, e + 1);
                if v < s.len() && (s[v] == 34u8 || s[v] == 39u8) {
                    if !scan_exec(s, TimeScan::Value(s[v]), v + 1, 0) {
                        return false;
                    }
                }
            }
        }
        p = p + 1;
    }
    assert forall|j: int| attr_at(s@, name@, j) implies attr_value_ok(s@, name@, j) by {
        assert(0 <= j < s@.len());
    }
    true
}

fn time_attrs_ok_exec(s: &[u8]) -> (r: bool)
    ensures
        r == time_attrs_ok(s@),
{
    let start: [u8; 5] = [115u8, 116u8, 97u8, 114u8, 116u8];
    let end: [u8; 3] = [101u8, 110u8, 100u8];
    let time: [u8; 4] = [116u8, 105u8, 109u8, 101u8];
    assert(start@ =~= time_attr_names()[0]);
    assert(end@ =~= time_attr_names()[1]);
    assert(time@ =~= time_attr_names()[2]);
    let a = attr_values_ok_exec(s, start.as_slice());
    let b = attr_values_ok_exec(s, end.as_slice());
    let c = attr_values_ok_exec(s, time.as_slice());
    proof {
        if a && b && c {
            assert forall|k: int, p: int|
                0 <= k < 3 && #[trigger] attr_at(s@, time_attr_names()[k], p) implies attr_value_ok(
                s@,
                time_attr_names()[k],
                p,
            ) by {
                if k == 0 {
                } else if k == 1 {
                } else {
                }
            }
        } else if !a {
            let p = choose|p: int| !(attr_at(s@, start@, p) ==> attr_value_ok(s@, start@, p));
            assert(attr_at(s@, time_attr_names()[0], p));
        } else if !b {
            let p = choose|p: int| !(attr_at(s@, end@, p) ==> attr_value_ok(s@, end@, p));
            assert(attr_at(s@, time_attr_names()[1], p));
        } else {
            let p = choose|p: int| !(attr_at(s@, time@, p) ==> attr_value_ok(s@, time@, p));
            assert(attr_at(s@, time_attr_names()[2], p));
        }
    }
    a && b && c
}

fn in_head_exec(s: &[u8], p: &[u8]) -> (r: bool)
    ensures
        r == in_head(s@, p@),
{
    if p.len() > 64 {
        return false;
    }
    let mut i: usize = 0;
    while i + p.len() <= 64
        invariant
            p@.len() <= 64,
            i <= 65,
            forall|j: int| 0 <= j < i ==> !occurs_bytes(s@, p@, j),
        decreases 65 - i,
    {
        if occurs_exec(s, p, i) {
            return true;
        }
        i = i + 1;
    }
    false
}

fn times_safe_exec(doc: &[u8]) -> (r: bool)
    ensures
        r == times_safe(doc@),
{
    let y2022: [u8; 4] = [50u8, 48u8, 50u8, 50u8];
    let esc: [u8; 1] = [27u8];
    assert(y2022@ =~= seq![50u8, 48u8, 50u8, 50u8]);
    assert(esc@ =~= seq![27u8]);
    if in_head_exec(doc, y2022.as_slice()) && has_bytes_exec(doc, esc.as_slice()) {
        return false;
    }
    if switch_may_widen_exec(doc) {
        return false;
    }
    let it = "http://www.itunes.com/dtds/podcast-1.0.dtd".as_bytes();
    let mr = "http://search.yahoo.com/mrss/".as_bytes();
    let it_le = widen(it, false);
    let it_be = widen(it, true);
    let mr_le = widen(mr, false);
    let mr_be = widen(mr, true);
    if has_bytes_exec(doc, it_le.as_slice()) || has_bytes_exec(doc, it_be.as_slice())
        || has_bytes_exec(doc, mr_le.as_slice()) || has_bytes_exec(doc, mr_be.as_slice()) {
        return false;
    }
    if has_bytes_exec(doc, it) && !durations_ok_exec(doc) {
        return false;
    }
    if has_bytes_exec(doc, mr) && !time_attrs_ok_exec(doc) {
        return false;
    }
    true
}

fn names_encoding_exec(s: &[u8], j: usize) -> (r: bool)
    ensures
        r == names_encoding(s@, j as int),
{
    let close: [u8; 2] = [63u8, 62u8];
    let enc: [u8; 8] = [101u8, 110u8, 99u8, 111u8, 100u8, 105u8, 110u8, 103u8];
    assert(close@ =~= pi_close());
    assert(enc@ =~= encoding_name());
    let mut k = j;
    while k < s.len()
        invariant
            j <= k,
            close@ == pi_close(),
            enc@ == encoding_name(),
            names_encoding(s@, j as int) == names_encoding(s@, k as int),
        decreases s@.len() - k,
    {
        if occurs_exec(s, close.as_slice(), k) {
            return false;
        }
        if occurs_exec(s, enc.as_slice(), k) {
            return true;
        }
        k = k + 1;
    }
    false
}

fn closed_early_exec(doc: &[u8], i: usize) -> (r: bool)
    ensures
        r == closed_early(doc@, i as int),
{
    let close_pi: [u8; 2] = [63u8, 62u8];
    assert(close_pi@ =~= seq![63u8, 62u8]);
    if i >= 62 {
        return false;
    }
    let mut k: usize = i + 1;
    while k <= 62
        invariant
            i < 62,
            i + 1 <= k <= 63,
            close_pi@ == seq![63u8, 62u8],
            forall|m: int| i < m < k ==> !occurs_bytes(doc@, seq![63u8, 62u8], m),
        decreases 63 - k,
    {
        if occurs_exec(doc, close_pi.as_slice(), k) {
            assert(occurs_bytes(doc@, pi_close(), k as int));
            return true;
        }
        k = k + 1;
    }
    false
}

fn decl_at_exec(s: &[u8], i: usize) -> (r: bool)
    ensures
        r == decl_at(s@, i as int),
{
    let open_arr: [u8; 5] = [60u8, 63u8, 120u8, 109u8, 108u8];
    assert(open_arr@ =~= xml_decl_open());
    if occurs_exec(s, open_arr.as_slice(), i) && i < s.len() && s.len() - i > 5 {
        let c = s[i + 5];
        c == 32u8 || c == 9u8 || c == 10u8 || c == 13u8 || c == 63u8
    } else {
        false
    }
}

fn switch_may_widen_exec(doc: &[u8]) -> (r: bool)
    ensures
        r == switch_may_widen(doc@),
{
    let nul: [u8; 1] = [0u8];
    assert(nul@ =~= seq![0u8]);
    has_bytes_exec(doc, nul.as_slice()) && ((decl_at_exec(doc, 0) && names_encoding_exec(doc, 5)) || (
    decl_at_exec(doc, 3) && names_encoding_exec(doc, 8)))
}

fn decl_safe_exec(doc: &[u8]) -> (r: bool)
    ensures
        r == decl_safe(doc@),
{
    let open_arr: [u8; 5] = [60u8, 63u8, 120u8, 109u8, 108u8];
    let enc_arr: [u8; 8] = [101u8, 110u8, 99u8, 111u8, 100u8, 105u8, 110u8, 103u8];
    let open = open_arr.as_slice();
    assert(open@ =~= xml_decl_open());
    assert(enc_arr@ =~= encoding_name());
    let le = widen(open, false);
    let be = widen(open, true);
    let enc_le = widen(enc_arr.as_slice(), false);
    let enc_be = widen(enc_arr.as_slice(), true);
    if (has_bytes_exec(doc, le.as_slice()) || has_bytes_exec(doc, be.as_slice())) && (has_bytes_exec(
        doc,
        enc_le.as_slice(),
    ) || has_bytes_exec(doc, enc_be.as_slice())) {
        return false;
    }
    let mut i: usize = 0;
    while i < doc.len()
        invariant
            i <= doc@.len(),
            open@ == xml_decl_open(),
            forall|j: int|
                0 <= j < i && decl_at(doc@, j) && names_encoding(doc@, j + 5) ==> (j == 0 || (j == 3
                    && utf8_bom_first(doc@))) && closed_early(doc@, j),
        decreases doc@.len() - i,
    {
        if occurs_exec(doc, open, i) && i + 5 < doc.len() {
            let c = doc[i + 5];
            if c == 32u8 || c == 9u8 || c == 10u8 || c == 13u8 || c == 63u8 {
                assert(decl_at(doc@, i as int));
                if names_encoding_exec(doc, i + 5) {
                    let bom = doc.len() >= 3 && doc[0] == 0xEFu8 && doc[1] == 0xBBu8 && doc[2] == 0xBFu8;
                    if !(i == 0 || (i == 3 && bom)) || !closed_early_exec(doc, i) {
                        return false;
                    }
                }
            }
        }
        i = i + 1;
    }
    assert forall|j: int| decl_at(doc@, j) && names_encoding(doc@, j + 5) implies (j == 0 || (j == 3
        && utf8_bom_first(doc@))) && closed_early(doc@, j) by {
        assert(0 <= j < doc@.len());
    }
    true
}

/// Whether `feed_rs` reads `doc` without panicking (see [`feed_safe`]).
pub fn feed_safe_exec(doc: &[u8]) -> (r: bool)
    ensures
        r == feed_safe(doc@),
{
    decl_safe_exec(doc) && times_safe_exec(doc)
}

} // verus!
