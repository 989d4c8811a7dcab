//! Sitemaps: the `<loc>` entries of a sitemap or sitemap index document.
use vstd::prelude::*;

use quick_xml::events::Event;

verus! {

/// One event of an XML reader that trims text, as the sitemap rule reads it.
#[derive(Debug, PartialEq, Eq)]
pub enum XmlToken {
    /// A start tag, by its qualified name.
    Start(Vec<u8>),
    /// Text, unescaped, or the text of the error that unescaping gave.
    Text(Result<String, String>),
    /// A CDATA section, read as UTF-8 with bad sequences replaced.
    CData(String),
    /// Any other event before the end of the document.
    Other,
    /// The reader failed here, with this message. After an ill-formed
    /// construct the reader reads on; after other errors nothing follows.
    Fault(String),
}

/// The content of an [`XmlToken`].
pub enum XmlTokenView {
    Start(Seq<u8>),
    Text(Result<Seq<char>, Seq<char>>),
    CData(Seq<char>),
    Other,
    Fault(Seq<char>),
}

impl View for XmlToken {
    type V = XmlTokenView;

    open spec fn view(&self) -> XmlTokenView {
        match self {
            XmlToken::Start(n) => XmlTokenView::Start(n@),
            XmlToken::Text(Ok(s)) => XmlTokenView::Text(Ok(s@)),
            XmlToken::Text(Err(e)) => XmlTokenView::Text(Err(e@)),
            XmlToken::CData(s) => XmlTokenView::CData(s@),
            XmlToken::Other => XmlTokenView::Other,
            XmlToken::Fault(e) => XmlTokenView::Fault(e@),
        }
    }
}

/// The views of a list of events.
pub open spec fn token_views(s: Seq<XmlToken>) -> Seq<XmlTokenView> {
    Seq::new(s.len(), |i: int| s[i]@)
}

/// The events that a `quick_xml::Reader` over `doc`, trimming text, hands
/// out before its end of document, errors among them.
pub uninterp spec fn xml_tokens(doc: Seq<u8>) -> Seq<XmlTokenView>;

/// Reads `doc` with `quick_xml::Reader::read_event` (text trimmed) until the
/// end of the document; each event, or error, becomes an
/// [`XmlToken`], text through `BytesText::unescape` and CDATA through
/// `String::from_utf8_lossy`. The contract names the result.
#[verifier::external_body]
fn read_tokens(doc: &[u8]) -> (r: Vec<XmlToken>)
    ensures
        token_views(r@) == xml_tokens(doc@),
{
    let mut reader = quick_xml::Reader::from_reader(doc);
    reader.config_mut().trim_text(true);
    let mut out = Vec::new();
    loop {
        out.push(match reader.read_event() {
            Ok(Event::Eof) => return out,
            Ok(Event::Start(e)) => XmlToken::Start(e.name().as_ref().to_vec()),
            Ok(Event::Text(t)) => XmlToken::Text(t.unescape().map(|c| c.into_owned()).map_err(|e| e.to_string())),
            Ok(Event::CData(t)) => XmlToken::CData(String::from_utf8_lossy(t.as_ref()).into_owned()),
            Ok(_) => XmlToken::Other,
            Err(e) => XmlToken::Fault(e.to_string()),
        });
    }
}

/// The tag name `loc`.
pub open spec fn loc_name() -> Seq<u8> {
    seq![108u8, 111u8, 99u8]
}

/// `acc` with `s` added when `s` is not empty.
pub open spec fn keep_nonempty(acc: Seq<Seq<char>>, s: Seq<char>) -> Seq<Seq<char>> {
    if s.len() > 0 {
        acc.push(s)
    } else {
        acc
    }
}

/// The locations collected from the events from index `i` on, after `acc`
/// was collected before it. A `loc` start tag takes the next event with it:
/// text or CDATA there is a location (kept when not empty), an error there
/// ends the reading with that error. An error anywhere else ends it too.
pub open spec fn locs_from(t: Seq<XmlTokenView>, i: nat, acc: Seq<Seq<char>>) -> Result<
    Seq<Seq<char>>,
    Seq<char>,
>
    decreases t.len() - i,
{
    if i >= t.len() {
        Ok(acc)
    } else {
        match t[i as int] {
            XmlTokenView::Start(name) => if name == loc_name() {
                if i + 1 >= t.len() {
                    Ok(acc)
                } else {
                    match t[(i + 1) as int] {
                        XmlTokenView::Text(Ok(s)) => locs_from(t, i + 2, keep_nonempty(acc, s)),
                        XmlTokenView::Text(Err(e)) => Err(e),
                        XmlTokenView::CData(s) => locs_from(t, i + 2, keep_nonempty(acc, s)),
                        XmlTokenView::Fault(e) => Err(e),
                        _ => locs_from(t, i + 2, acc),
                    }
                }
            } else {
                locs_from(t, i + 1, acc)
            },
            XmlTokenView::Fault(e) => Err(e),
            _ => locs_from(t, i + 1, acc),
        }
    }
}

/// The view of a result of string lists.
pub open spec fn locs_view(r: Result<Vec<String>, String>) -> Result<Seq<Seq<char>>, Seq<char>> {
    match r {
        Ok(v) => Ok(crate::ipc::str_views(v@)),
        Err(e) => Err(e@),
    }
}

fn is_loc(name: &Vec<u8>) -> (r: bool)
    ensures
        r == (name@ == loc_name()),
{
    let b = name.len() == 3 && name[0] == 108u8 && name[1] == 111u8 && name[2] == 99u8;
    proof {
        if b {
            assert(name@ =~= loc_name());
        }
    }
    b
}

fn keep_text(out: &mut Vec<String>, s: &String)
    ensures
        crate::ipc::str_views(final(out)@) == keep_nonempty(crate::ipc::str_views(old(out)@), s@),
{
    if !s.as_str().is_empty() {
        let ghost before = out@;
        out.push(s.clone());
        assert(crate::ipc::str_views(out@) =~= crate::ipc::str_views(before).push(s@));
    }
}

/// Collects the `<loc>` text of a sitemap from the reader's events.
pub fn locs_of_tokens(t: &Vec<XmlToken>) -> (r: Result<Vec<String>, String>)
    ensures
        locs_view(r) == locs_from(token_views(t@), 0, seq![]),
{
    let mut out: Vec<String> = Vec::new();
    let mut i: usize = 0;
    let ghost tv = token_views(t@);
    assert(crate::ipc::str_views(out@) =~= Seq::<Seq<char>>::empty());
    while i < t.len()
        invariant
            i <= t@.len() + 1,
            tv == token_views(t@),
            locs_from(tv, i as nat, crate::ipc::str_views(out@)) == locs_from(tv, 0, seq![]),
        decreases t@.len() + 1 - i,
    {
        assert(tv[i as int] == t@[i as int]@);
        match &t[i] {
            XmlToken::Start(name) => {
                if is_loc(name) {
                    if i + 1 >= t.len() {
                        return Ok(out);
                    }
                    assert(tv[i + 1] == t@[i + 1]@);
                    match &t[i + 1] {
                        XmlToken::Text(Ok(s)) => keep_text(&mut out, s),
                        XmlToken::Text(Err(e)) => return Err(e.clone()),
                        XmlToken::CData(s) => keep_text(&mut out, s),
                        XmlToken::Fault(e) => return Err(e.clone()),
                        _ => {},
                    }
                    i = i + 2;
                } else {
                    i = i + 1;
                }
            },
            XmlToken::Fault(e) => return Err(e.clone()),
            _ => {
                i = i + 1;
            },
        }
    }
    Ok(out)
}

/// Collects the `<loc>` text of a sitemap or sitemap index document, in
/// document order, leaving out empty ones; the reader's first error, or
/// that of unescaping a location, is the error.
pub fn parse_locs(xml: &[u8]) -> (r: Result<Vec<String>, String>)
    ensures
        locs_view(r) == locs_from(xml_tokens(xml@), 0, seq![]),
{
    let t = read_tokens(xml);
    locs_of_tokens(&t)
}


/// No location read from a sitemap is empty.
pub proof fn law_locs_nonempty(t: Seq<XmlTokenView>)
    ensures
        locs_from(t, 0, seq![]) matches Ok(ls) ==> forall|i: int| 0 <= i < ls.len() ==> (#[trigger] ls[i]).len() > 0,
{
    lemma_locs_nonempty(t, 0, seq![]);
}

proof fn lemma_locs_nonempty(t: Seq<XmlTokenView>, i: nat, acc: Seq<Seq<char>>)
    requires
        forall|k: int| 0 <= k < acc.len() ==> (#[trigger] acc[k]).len() > 0,
    ensures
        locs_from(t, i, acc) matches Ok(ls) ==> forall|k: int| 0 <= k < ls.len() ==> (#[trigger] ls[k]).len() > 0,
    decreases t.len() - i,
{
    if i < t.len() {
        match t[i as int] {
            XmlTokenView::Start(name) => if name == loc_name() {
                if i + 1 < t.len() {
                    match t[(i + 1) as int] {
                        XmlTokenView::Text(Ok(s)) => {
                            lemma_keep_nonempty(acc, s);
                            lemma_locs_nonempty(t, i + 2, keep_nonempty(acc, s));
                        },
                        XmlTokenView::CData(s) => {
                            lemma_keep_nonempty(acc, s);
                            lemma_locs_nonempty(t, i + 2, keep_nonempty(acc, s));
                        },
                        XmlTokenView::Text(Err(_)) => {},
                        XmlTokenView::Fault(_) => {},
                        _ => lemma_locs_nonempty(t, i + 2, acc),
                    }
                }
            } else {
                lemma_locs_nonempty(t, i + 1, acc);
            },
            XmlTokenView::Fault(_) => {},
            _ => lemma_locs_nonempty(t, i + 1, acc),
        }
    }
}

proof fn lemma_keep_nonempty(acc: Seq<Seq<char>>, s: Seq<char>)
    requires
        forall|k: int| 0 <= k < acc.len() ==> (#[trigger] acc[k]).len() > 0,
    ensures
        forall|k: int| 0 <= k < keep_nonempty(acc, s).len() ==> (#[trigger] keep_nonempty(acc, s)[k]).len() > 0,
{
    if s.len() > 0 {
        assert forall|k: int| 0 <= k < acc.push(s).len() implies (#[trigger] acc.push(s)[k]).len() > 0 by {
            if k < acc.len() {
                assert(acc.push(s)[k] == acc[k]);
            }
        }
    }
}

} // verus!
