//! Sitemap trees: reading a site's sitemap documents depth first, each
//! document at most once, into a tree of the locations of its own origin.
use vstd::prelude::*;

use crate::cache::Fetched;
use crate::feed::is_success;
use crate::ipc::{opt_view, str_views, SitemapNode};
use crate::probe::{FetchOutcome, OutcomeView};
use crate::sitemap::{locs_from, locs_view, parse_locs, xml_tokens};
use crate::text::{ascii_lower_seq, ascii_lowercase, chars_of, ends_with, ends_with_chars};
use crate::web::SitemapPlan;
use crate::weburl::{same_origin, same_origin_spec, short_title, short_title_spec, WebUrl, WebUrlView};

verus! {

/// The text of a [`SitemapNode`].
pub struct NodeView {
    pub loc: Seq<char>,
    pub title: Option<Seq<char>>,
    pub children: Seq<NodeView>,
}

/// The view of a sitemap node and its descendants.
pub open spec fn node_view(n: SitemapNode) -> NodeView
    decreases n,
{
    NodeView {
        loc: n.loc@,
        title: opt_view(n.title),
        children: Seq::new(
            n.children@.len(),
            |i: int|
                if 0 <= i < n.children@.len() {
                    node_view(n.children@[i])
                } else {
                    NodeView { loc: seq![], title: None, children: seq![] }
                },
        ),
    }
}

/// The views of a list of nodes.
pub open spec fn nodes_view(s: Seq<SitemapNode>) -> Seq<NodeView> {
    Seq::new(s.len(), |i: int| node_view(s[i]))
}

/// A location named in a sitemap whose document is itself a sitemap: one
/// whose ASCII-lower-cased text ends in `.xml`.
pub open spec fn is_xml(loc: Seq<char>) -> bool {
    ends_with(ascii_lower_seq(loc), ".xml"@)
}

/// The node of a location whose document is not read.
pub open spec fn leaf(loc: Seq<char>) -> NodeView {
    NodeView { loc: loc, title: Some(short_title_spec(loc)), children: seq![] }
}

/// One sitemap document being read.
#[derive(Debug)]
pub struct WalkFrame {
    /// Its depth: 1 for the site's sitemap.
    pub depth: u32,
    /// The locations it lists.
    pub locs: Vec<String>,
    /// How many of them were looked at.
    pub next: usize,
    /// The nodes made of them so far.
    pub nodes: Vec<SitemapNode>,
    /// The location whose document is being read, for the next node.
    pub pending: Option<String>,
}

/// A walk of a site's sitemap documents.
#[derive(Debug)]
pub struct SitemapWalk {
    /// The site's URL: only locations of its origin are kept.
    pub base: WebUrl,
    /// The deepest level of documents read.
    pub max_depth: u32,
    /// The documents asked for so far.
    pub visited: Vec<String>,
    /// The documents being read, outermost first.
    pub frames: Vec<WalkFrame>,
    /// The depth of the document whose fetch is awaited, if any.
    pub awaiting: Option<u32>,
}

/// What the walk asks its runner to do next.
#[derive(Debug)]
pub enum WalkAction {
    /// GET this sitemap document and hand back the outcome.
    Fetch(String),
    /// The walk is over: the nodes under the root, or why it failed.
    Done(Result<Vec<SitemapNode>, String>),
}

/// The view of a [`WalkFrame`].
pub struct FrameView {
    pub depth: u32,
    pub locs: Seq<Seq<char>>,
    pub next: int,
    pub nodes: Seq<NodeView>,
    pub pending: Option<Seq<char>>,
}

/// The view of a [`SitemapWalk`].
pub struct WalkState {
    pub base: WebUrlView,
    pub max_depth: u32,
    pub visited: Seq<Seq<char>>,
    pub frames: Seq<FrameView>,
    pub awaiting: Option<u32>,
}

/// The view of a [`WalkAction`].
pub enum WalkActionView {
    Fetch(Seq<char>),
    Done(Result<Seq<NodeView>, Seq<char>>),
}

impl View for WalkFrame {
    type V = FrameView;

    open spec fn view(&self) -> FrameView {
        FrameView {
            depth: self.depth,
            locs: str_views(self.locs@),
            next: self.next as int,
            nodes: nodes_view(self.nodes@),
            pending: opt_view(self.pending),
        }
    }
}

/// The views of a list of frames.
pub open spec fn frames_view(s: Seq<WalkFrame>) -> Seq<FrameView> {
    Seq::new(s.len(), |i: int| s[i]@)
}

impl View for SitemapWalk {
    type V = WalkState;

    open spec fn view(&self) -> WalkState {
        WalkState {
            base: self.base@,
            max_depth: self.max_depth,
            visited: str_views(self.visited@),
            frames: frames_view(self.frames@),
            awaiting: self.awaiting,
        }
    }
}

impl View for WalkAction {
    type V = WalkActionView;

    open spec fn view(&self) -> WalkActionView {
        match self {
            WalkAction::Fetch(u) => WalkActionView::Fetch(u@),
            WalkAction::Done(Ok(v)) => WalkActionView::Done(Ok(nodes_view(v@))),
            WalkAction::Done(Err(e)) => WalkActionView::Done(Err(e@)),
        }
    }
}

/// The locations of a frame not looked at yet.
pub open spec fn rem(f: FrameView) -> nat {
    if 0 <= f.next <= f.locs.len() {
        (f.locs.len() - f.next) as nat
    } else {
        0
    }
}

/// What is left of a walk: the frames and their locations not looked at.
pub open spec fn measure(fs: Seq<FrameView>) -> nat
    decreases fs.len(),
{
    if fs.len() == 0 {
        0
    } else {
        measure(fs.drop_last()) + rem(fs.last()) + 1
    }
}

/// The walk with its innermost frame replaced by `f`.
pub open spec fn set_top(s: WalkState, f: FrameView) -> WalkState {
    WalkState { frames: s.frames.drop_last().push(f), ..s }
}

/// Starting to read the document at `url` at `depth`: past the deepest
/// level, or when it was asked for before, it gives no nodes; otherwise it
/// is fetched.
pub open spec fn enter(s: WalkState, url: Seq<char>, depth: int) -> (WalkState, WalkActionView)
    decreases measure(s.frames), 3int,
{
    if depth > s.max_depth || s.visited.contains(url) {
        deliver(s, seq![])
    } else {
        (
            WalkState { visited: s.visited.push(url), awaiting: Some(depth as u32), ..s },
            WalkActionView::Fetch(url),
        )
    }
}

/// A document was read into `nodes`: the walk is over when it was the
/// site's sitemap; otherwise the document's location becomes a node of the
/// document that listed it, with `nodes` as its children, and reading that
/// document goes on.
pub open spec fn deliver(s: WalkState, nodes: Seq<NodeView>) -> (WalkState, WalkActionView)
    decreases measure(s.frames), 2int,
{
    if s.frames.len() == 0 {
        (s, WalkActionView::Done(Ok(nodes)))
    } else {
        let f = s.frames.last();
        let g = match f.pending {
            Some(loc) => FrameView {
                nodes: f.nodes.push(NodeView { loc: loc, title: Some(short_title_spec(loc)), children: nodes }),
                pending: None,
                ..f
            },
            None => f,
        };
        proof {
            assert(s.frames.drop_last().push(g).drop_last() =~= s.frames.drop_last());
        }
        advance(set_top(s, g))
    }
}

/// Goes on reading the innermost document: a location of another origin is
/// skipped; one that is itself a sitemap, above the deepest level, has its
/// document read for the children of its node; any other becomes a node
/// without children. When its locations are all looked at, the document is
/// read.
pub open spec fn advance(s: WalkState) -> (WalkState, WalkActionView)
    decreases measure(s.frames), 1int,
{
    if s.frames.len() == 0 {
        (s, WalkActionView::Done(Ok(seq![])))
    } else {
        let f = s.frames.last();
        if 0 <= f.next < f.locs.len() {
            let loc = f.locs[f.next];
            let f1 = FrameView { next: f.next + 1, ..f };
            proof {
                assert(s.frames.drop_last().push(f1).drop_last() =~= s.frames.drop_last());
                assert(s.frames.drop_last().push(FrameView { pending: Some(loc), ..f1 }).drop_last()
                    =~= s.frames.drop_last());
                assert(s.frames.drop_last().push(FrameView { nodes: f1.nodes.push(leaf(loc)), ..f1 }).drop_last()
                    =~= s.frames.drop_last());
            }
            if !same_origin_spec(s.base, loc) {
                advance(set_top(s, f1))
            } else if f.depth < s.max_depth && is_xml(loc) {
                enter(set_top(s, FrameView { pending: Some(loc), ..f1 }), loc, f.depth + 1)
            } else {
                advance(set_top(s, FrameView { nodes: f1.nodes.push(leaf(loc)), ..f1 }))
            }
        } else {
            deliver(WalkState { frames: s.frames.drop_last(), ..s }, f.nodes)
        }
    }
}

/// How a walk of the sitemap at `source` for the site at `base`, reading at
/// most `limit` levels, starts.
pub open spec fn walk_start_spec(base: WebUrlView, source: Seq<char>, limit: u32) -> (
    WalkState,
    WalkActionView,
) {
    enter(
        WalkState { base: base, max_depth: limit, visited: seq![], frames: seq![], awaiting: None },
        source,
        1,
    )
}

/// What a walk makes of the outcome of the fetch it awaits: a failed fetch,
/// or a document that does not parse, ends it with that error; an answer
/// outside 200..300 gives no nodes; otherwise the document's locations are
/// read.
pub open spec fn walk_step_spec(s: WalkState, ev: OutcomeView) -> (WalkState, WalkActionView) {
    let d = s.awaiting.unwrap();
    let s0 = WalkState { awaiting: None, ..s };
    match ev {
        OutcomeView::Failed(e) => (s0, WalkActionView::Done(Err(e))),
        OutcomeView::Response { status, body, .. } => if !(200 <= status < 300) {
            deliver(s0, seq![])
        } else {
            match locs_from(xml_tokens(body), 0, seq![]) {
                Err(e) => (s0, WalkActionView::Done(Err(e))),
                Ok(locs) => advance(
                    WalkState {
                        frames: s0.frames.push(
                            FrameView { depth: d, locs: locs, next: 0, nodes: seq![], pending: None },
                        ),
                        ..s0
                    },
                ),
            }
        },
    }
}


/// The node of `loc` with `children`.
fn node_of(loc: &String, children: Vec<SitemapNode>) -> (r: SitemapNode)
    ensures
        node_view(r) == (NodeView {
            loc: loc@,
            title: Some(short_title_spec(loc@)),
            children: nodes_view(children@),
        }),
{
    let n = SitemapNode { loc: loc.clone(), title: Some(short_title(loc.as_str())), children };
    assert(node_view(n).children =~= nodes_view(children@));
    n
}

fn is_xml_exec(loc: &String) -> (r: bool)
    ensures
        r == is_xml(loc@),
{
    ends_with_chars(&ascii_lowercase(&chars_of(loc.as_str())), &chars_of(".xml"))
}

/// What the walk does next from the inside.
enum Mode {
    /// Go on reading the innermost document.
    Advance,
    /// A document was read into these nodes.
    Deliver(Vec<SitemapNode>),
}

spec fn mode_spec(s: WalkState, m: Mode) -> (WalkState, WalkActionView) {
    match m {
        Mode::Advance => advance(s),
        Mode::Deliver(v) => deliver(s, nodes_view(v@)),
    }
}

spec fn rank(m: Mode) -> nat {
    match m {
        Mode::Advance => 1,
        Mode::Deliver(_) => 2,
    }
}

proof fn lemma_set_top_measure(s: WalkState, g: FrameView)
    requires
        s.frames.len() > 0,
    ensures
        set_top(s, g).frames.drop_last() == s.frames.drop_last(),
        set_top(s, g).frames.last() == g,
        measure(set_top(s, g).frames) == measure(s.frames.drop_last()) + rem(g) + 1,
{
    assert(s.frames.drop_last().push(g).drop_last() =~= s.frames.drop_last());
}

#[verifier::loop_isolation(false)]
fn run(w: SitemapWalk, mode: Mode) -> (r: (SitemapWalk, WalkAction))
    ensures
        (r.0@, r.1@) == mode_spec(w@, mode),
{
    let ghost goal = mode_spec(w@, mode);
    let mut w = w;
    let mut mode = mode;
    loop
        invariant
            mode_spec(w@, mode) == goal,
        decreases 3 * measure(w@.frames) + rank(mode),
    {
        let ghost s = w@;
        let ghost m0 = measure(s.frames);
        match mode {
            Mode::Deliver(nodes) => {
                if w.frames.len() == 0 {
                    assert(goal == deliver(s, nodes_view(nodes@)));
                    return (w, WalkAction::Done(Ok(nodes)));
                }
                let ghost fv = s.frames.last();
                let ghost dv = nodes_view(nodes@);
                let f = w.frames.pop().unwrap();
                assert(frames_view(w.frames@) =~= s.frames.drop_last());
                assert(f@ == fv);
                let WalkFrame { depth, locs, next, nodes: fnodes, pending } = f;
                let mut fnodes = fnodes;
                match pending {
                    Some(loc) => {
                        let node = node_of(&loc, nodes);
                        let ghost before = fnodes@;
                        fnodes.push(node);
                        assert(nodes_view(fnodes@) =~= nodes_view(before).push(node_view(node)));
                    },
                    None => {},
                }
                let g = WalkFrame { depth, locs, next, nodes: fnodes, pending: None };
                let ghost gv = g@;
                let ghost rest = w.frames@;
                w.frames.push(g);
                proof {
                    assert(frames_view(w.frames@) =~= frames_view(rest).push(gv));
                    assert(w@ == set_top(s, gv));
                    lemma_set_top_measure(s, gv);
                }
                mode = Mode::Advance;
            },
            Mode::Advance => {
                if w.frames.len() == 0 {
                    let empty: Vec<SitemapNode> = Vec::new();
                    assert(nodes_view(empty@) =~= Seq::<NodeView>::empty());
                    assert(goal == advance(s));
                    return (w, WalkAction::Done(Ok(empty)));
                }
                let ghost fv = s.frames.last();
                let f = w.frames.pop().unwrap();
                assert(frames_view(w.frames@) =~= s.frames.drop_last());
                assert(f@ == fv);
                let WalkFrame { depth, locs, next, nodes, pending } = f;
                if next < locs.len() {
                    let loc = locs[next].clone();
                    assert(loc@ == fv.locs[fv.next]);
                    let next1 = next + 1;
                    let ghost rest = w.frames@;
                    if !same_origin(&w.base, loc.as_str()) {
                        let g = WalkFrame { depth, locs, next: next1, nodes, pending };
                        let ghost gv = g@;
                        w.frames.push(g);
                        proof {
                            assert(frames_view(w.frames@) =~= frames_view(rest).push(gv));
                            assert(w@ == set_top(s, gv));
                            lemma_set_top_measure(s, gv);
                        }
                        mode = Mode::Advance;
                    } else if depth < w.max_depth && is_xml_exec(&loc) {
                        let g = WalkFrame { depth, locs, next: next1, nodes, pending: Some(loc.clone()) };
                        let ghost gv = g@;
                        w.frames.push(g);
                        proof {
                            assert(frames_view(w.frames@) =~= frames_view(rest).push(gv));
                            assert(w@ == set_top(s, gv));
                            lemma_set_top_measure(s, gv);
                        }
                        let d1 = depth + 1;
                        if d1 > w.max_depth || crate::pin::contains_string(&w.visited, &loc) {
                            let empty: Vec<SitemapNode> = Vec::new();
                            assert(nodes_view(empty@) =~= Seq::<NodeView>::empty());
                            assert(goal == advance(s));
                            assert(advance(s) == enter(w@, loc@, depth + 1));
                            assert(enter(w@, loc@, depth + 1) == deliver(w@, seq![]));
                            mode = Mode::Deliver(empty);
                        } else {
                            let ghost vis = w.visited@;
                            let ghost t = w@;
                            assert(goal == advance(s));
                            assert(advance(s) == enter(t, loc@, depth + 1));
                            w.visited.push(loc.clone());
                            assert(str_views(w.visited@) =~= str_views(vis).push(loc@));
                            w.awaiting = Some(d1);
                            assert(w@ == WalkState { visited: t.visited.push(loc@), awaiting: Some(d1), ..t });
                            return (w, WalkAction::Fetch(loc));
                        }
                    } else {
                        let mut nodes = nodes;
                        let ghost before = nodes@;
                        let empty: Vec<SitemapNode> = Vec::new();
                        assert(nodes_view(empty@) =~= Seq::<NodeView>::empty());
                        nodes.push(node_of(&loc, empty));
                        proof {
                            assert(nodes_view(nodes@) =~= nodes_view(before).push(leaf(loc@)));
                        }
                        let g = WalkFrame { depth, locs, next: next1, nodes, pending };
                        let ghost gv = g@;
                        w.frames.push(g);
                        proof {
                            assert(frames_view(w.frames@) =~= frames_view(rest).push(gv));
                            assert(w@ == set_top(s, gv));
                            lemma_set_top_measure(s, gv);
                        }
                        mode = Mode::Advance;
                    }
                } else {
                    assert(w@ == WalkState { frames: s.frames.drop_last(), ..s });
                    mode = Mode::Deliver(nodes);
                }
            },
        }
    }
}

/// Starts a walk of the sitemap at `source` for the site at `base`, reading
/// at most `limit` levels of documents.
pub fn walk_start(base: WebUrl, source: &str, limit: u32) -> (r: (SitemapWalk, WalkAction))
    ensures
        (r.0@, r.1@) == walk_start_spec(base@, source@, limit),
{
    let mut w = SitemapWalk {
        base,
        max_depth: limit,
        visited: Vec::new(),
        frames: Vec::new(),
        awaiting: None,
    };
    assert(str_views(w.visited@) =~= Seq::<Seq<char>>::empty());
    assert(frames_view(w.frames@) =~= Seq::<FrameView>::empty());
    if 1 > limit {
        let empty: Vec<SitemapNode> = Vec::new();
        assert(nodes_view(empty@) =~= Seq::<NodeView>::empty());
        return run(w, Mode::Deliver(empty));
    }
    let ghost vis = w.visited@;
    w.visited.push(String::from_str(source));
    assert(str_views(w.visited@) =~= str_views(vis).push(source@));
    w.awaiting = Some(1);
    (w, WalkAction::Fetch(String::from_str(source)))
}

/// Hands a walk the outcome of the fetch it awaits.
pub fn walk_step(w: SitemapWalk, ev: FetchOutcome) -> (r: (SitemapWalk, WalkAction))
    requires
        w@.awaiting is Some,
    ensures
        (r.0@, r.1@) == walk_step_spec(w@, ev@),
{
    let mut w = w;
    let d = w.awaiting.unwrap();
    w.awaiting = None;
    match ev {
        FetchOutcome::Failed(e) => (w, WalkAction::Done(Err(e))),
        FetchOutcome::Response(f) => {
            if !is_success(f.status) {
                let empty: Vec<SitemapNode> = Vec::new();
                assert(nodes_view(empty@) =~= Seq::<NodeView>::empty());
                return run(w, Mode::Deliver(empty));
            }
            match parse_locs(f.bytes.as_slice()) {
                Err(e) => (w, WalkAction::Done(Err(e))),
                Ok(locs) => {
                    let fr = WalkFrame { depth: d, locs, next: 0, nodes: Vec::new(), pending: None };
                    assert(nodes_view(fr.nodes@) =~= Seq::<NodeView>::empty());
                    let ghost fv = fr@;
                    let ghost rest = w.frames@;
                    w.frames.push(fr);
                    assert(frames_view(w.frames@) =~= frames_view(rest).push(fv));
                    run(w, Mode::Advance)
                },
            }
        },
    }
}


/// Starts the walk that a sitemap plan calls for: from its sitemap
/// document, for its site, to its depth limit.
pub fn walk_plan(plan: &SitemapPlan) -> (r: (SitemapWalk, WalkAction))
    ensures
        (r.0@, r.1@) == walk_start_spec(plan.base@, plan.source@, plan.limit),
{
    walk_start(plan.base.clone_url(), plan.source.as_str(), plan.limit)
}

/// The tree of a site's sitemap: the site's URL and title at the root, with
/// the nodes that the walk found as its children.
pub fn sitemap_root(plan: &SitemapPlan, children: Vec<SitemapNode>) -> (r: SitemapNode)
    ensures
        node_view(r) == (NodeView {
            loc: plan.root_loc@,
            title: Some(plan.root_title@),
            children: nodes_view(children@),
        }),
{
    let n = SitemapNode { loc: plan.root_loc.clone(), title: Some(plan.root_title.clone()), children };
    assert(node_view(n).children =~= nodes_view(children@));
    n
}

// ---------------------------------------------------------------------------
// Laws of the walk
// ---------------------------------------------------------------------------

/// Every node of `nodes`, and of their children at any depth, is a location
/// of the origin of `base`, titled by its short title, and has children
/// only when it is a sitemap document (its location ends in `.xml`).
pub open spec fn tree_shaped(base: WebUrlView, nodes: Seq<NodeView>) -> bool
    decreases nodes,
{
    forall|i: int|
        0 <= i < nodes.len() ==> same_origin_spec(base, (#[trigger] nodes[i]).loc) && nodes[i].title == Some(
            short_title_spec(nodes[i].loc),
        ) && (nodes[i].children.len() > 0 ==> is_xml(nodes[i].loc)) && tree_shaped(base, nodes[i].children)
}

/// What a walk keeps between steps: the nodes made so far are shaped as a
/// finished tree is (see [`tree_shaped`]), and the locations whose documents
/// are being read are sitemap documents of the site's origin.
pub open spec fn walk_wf(s: WalkState) -> bool {
    forall|k: int|
        0 <= k < s.frames.len() ==> tree_shaped(s.base, (#[trigger] s.frames[k]).nodes) && (
        s.frames[k].pending matches Some(loc) ==> same_origin_spec(s.base, loc) && is_xml(loc))
}

/// What a part of a step gives, seen from the walk `s` it started from: a
/// fetch is of a document not asked for before, which is then recorded, at
/// a depth within the limit; otherwise the recorded documents stay as they
/// were. The walk stays well-formed, and a finished walk's nodes are all of
/// the site's origin.
pub open spec fn step_ok(s: WalkState, r: (WalkState, WalkActionView)) -> bool {
    &&& r.0.base == s.base
    &&& r.0.max_depth == s.max_depth
    &&& walk_wf(r.0)
    &&& match r.1 {
        WalkActionView::Fetch(u) => !s.visited.contains(u) && r.0.visited == s.visited.push(u) && (
        r.0.awaiting matches Some(d) && 1 <= d <= s.max_depth),
        WalkActionView::Done(res) => r.0.visited == s.visited && (res matches Ok(ns)
            ==> tree_shaped(s.base, ns)),
    }
}

proof fn lemma_push_shaped(base: WebUrlView, ns: Seq<NodeView>, n: NodeView)
    requires
        tree_shaped(base, ns),
        same_origin_spec(base, n.loc),
        n.title == Some(short_title_spec(n.loc)),
        n.children.len() > 0 ==> is_xml(n.loc),
        tree_shaped(base, n.children),
    ensures
        tree_shaped(base, ns.push(n)),
{
    assert forall|i: int| 0 <= i < ns.push(n).len() implies same_origin_spec(
        base,
        (#[trigger] ns.push(n)[i]).loc,
    ) && tree_shaped(base, ns.push(n)[i].children) by {
        if i < ns.len() {
            assert(ns.push(n)[i] == ns[i]);
        }
    }
}

proof fn lemma_set_top_wf(s: WalkState, g: FrameView)
    requires
        walk_wf(s),
        s.frames.len() > 0,
        tree_shaped(s.base, g.nodes),
        g.pending matches Some(loc) ==> same_origin_spec(s.base, loc) && is_xml(loc),
    ensures
        walk_wf(set_top(s, g)),
{
    let t = set_top(s, g);
    assert forall|k: int| 0 <= k < t.frames.len() implies tree_shaped(
        t.base,
        (#[trigger] t.frames[k]).nodes,
    ) && (t.frames[k].pending matches Some(loc) ==> same_origin_spec(t.base, loc) && is_xml(loc)) by {
        if k < t.frames.len() - 1 {
            assert(t.frames[k] == s.frames[k]);
        }
    }
}

proof fn lemma_enter(s: WalkState, url: Seq<char>, depth: int)
    requires
        walk_wf(s),
        1 <= depth,
    ensures
        step_ok(s, enter(s, url, depth)),
    decreases measure(s.frames), 3int,
{
    if depth > s.max_depth || s.visited.contains(url) {
        lemma_deliver(s, seq![]);
    }
}

proof fn lemma_deliver(s: WalkState, nodes: Seq<NodeView>)
    requires
        walk_wf(s),
        tree_shaped(s.base, nodes),
    ensures
        step_ok(s, deliver(s, nodes)),
    decreases measure(s.frames), 2int,
{
    if s.frames.len() > 0 {
        let f = s.frames.last();
        assert(tree_shaped(s.base, f.nodes) && (f.pending matches Some(loc) ==> same_origin_spec(s.base, loc) && is_xml(loc)))
            by {
            assert(s.frames[s.frames.len() - 1] == f);
        }
        let g = match f.pending {
            Some(loc) => FrameView {
                nodes: f.nodes.push(NodeView { loc: loc, title: Some(short_title_spec(loc)), children: nodes }),
                pending: None,
                ..f
            },
            None => f,
        };
        if let Some(loc) = f.pending {
            lemma_push_shaped(
                s.base,
                f.nodes,
                NodeView { loc: loc, title: Some(short_title_spec(loc)), children: nodes },
            );
        }
        lemma_set_top_wf(s, g);
        lemma_set_top_measure(s, g);
        lemma_advance(set_top(s, g));
    }
}

proof fn lemma_advance(s: WalkState)
    requires
        walk_wf(s),
    ensures
        step_ok(s, advance(s)),
    decreases measure(s.frames), 1int,
{
    if s.frames.len() > 0 {
        let f = s.frames.last();
        assert(tree_shaped(s.base, f.nodes) && (f.pending matches Some(loc) ==> same_origin_spec(s.base, loc) && is_xml(loc)))
            by {
            assert(s.frames[s.frames.len() - 1] == f);
        }
        if 0 <= f.next < f.locs.len() {
            let loc = f.locs[f.next];
            let f1 = FrameView { next: f.next + 1, ..f };
            if !same_origin_spec(s.base, loc) {
                lemma_set_top_wf(s, f1);
                lemma_set_top_measure(s, f1);
                lemma_advance(set_top(s, f1));
            } else if f.depth < s.max_depth && is_xml(loc) {
                let g = FrameView { pending: Some(loc), ..f1 };
                lemma_set_top_wf(s, g);
                lemma_set_top_measure(s, g);
                lemma_enter(set_top(s, g), loc, f.depth + 1);
            } else {
                let g = FrameView { nodes: f1.nodes.push(leaf(loc)), ..f1 };
                assert(tree_shaped(s.base, leaf(loc).children));
                lemma_push_shaped(s.base, f1.nodes, leaf(loc));
                lemma_set_top_wf(s, g);
                lemma_set_top_measure(s, g);
                lemma_advance(set_top(s, g));
            }
        } else {
            let t = WalkState { frames: s.frames.drop_last(), ..s };
            assert(walk_wf(t)) by {
                assert forall|k: int| 0 <= k < t.frames.len() implies tree_shaped(
                    t.base,
                    (#[trigger] t.frames[k]).nodes,
                ) && (t.frames[k].pending matches Some(loc) ==> same_origin_spec(t.base, loc) && is_xml(loc)) by {
                    assert(t.frames[k] == s.frames[k]);
                }
            }
            lemma_deliver(t, f.nodes);
        }
    }
}

/// The walk's promises: each document is asked for at most once, no
/// document is read below the depth limit, and every node of the tree, at
/// any depth, is a location of the site's own origin, shaped as
/// [`tree_shaped`] says. Starting a walk keeps
/// them, and so does every step from a well-formed walk that awaits a fetch.
pub proof fn law_walk(base: WebUrlView, source: Seq<char>, limit: u32, s: WalkState, ev: OutcomeView)
    ensures
        step_ok(
            WalkState { base: base, max_depth: limit, visited: seq![], frames: seq![], awaiting: None },
            walk_start_spec(base, source, limit),
        ),
        walk_wf(s) && s.awaiting is Some ==> step_ok(s, walk_step_spec(s, ev)),
{
    let s0 = WalkState { base: base, max_depth: limit, visited: seq![], frames: seq![], awaiting: None };
    lemma_enter(s0, source, 1);
    if walk_wf(s) && s.awaiting is Some {
        let d = s.awaiting.unwrap();
        let t = WalkState { awaiting: None, ..s };
        assert(walk_wf(t));
        match ev {
            OutcomeView::Failed(e) => {},
            OutcomeView::Response { status, body, .. } => {
                if !(200 <= status < 300) {
                    lemma_deliver(t, seq![]);
                } else {
                    match locs_from(xml_tokens(body), 0, seq![]) {
                        Err(e) => {},
                        Ok(locs) => {
                            let fr = FrameView { depth: d, locs: locs, next: 0, nodes: seq![], pending: None };
                            let u = WalkState { frames: t.frames.push(fr), ..t };
                            assert(walk_wf(u)) by {
                                assert forall|k: int| 0 <= k < u.frames.len() implies tree_shaped(
                                    u.base,
                                    (#[trigger] u.frames[k]).nodes,
                                ) && (u.frames[k].pending matches Some(loc) ==> same_origin_spec(
                                    u.base,
                                    loc,
                                ) && is_xml(loc)) by {
                                    if k < t.frames.len() {
                                        assert(u.frames[k] == t.frames[k]);
                                    }
                                }
                            }
                            lemma_advance(u);
                        },
                    }
                }
            },
        }
    }
}


/// Starting to read the sitemap document at `url` at `depth`: past the
/// depth limit, or when the document was asked for before, it fetches
/// nothing, records nothing and gives no nodes; otherwise it fetches `url`
/// and records it as asked for.
pub proof fn law_level_entry(s: WalkState, url: Seq<char>, depth: int)
    ensures
        depth > s.max_depth || s.visited.contains(url) ==> enter(s, url, depth) == deliver(s, seq![]),
        !(depth > s.max_depth || s.visited.contains(url)) ==> enter(s, url, depth) == (
        WalkState { visited: s.visited.push(url), awaiting: Some(depth as u32), ..s },
        WalkActionView::Fetch(url),
        ),
{
}

/// Every node of `nodes` lies at most `h` levels deep: each is at level 1,
/// and its children at most `h - 1` levels below it.
pub open spec fn within_levels(nodes: Seq<NodeView>, h: int) -> bool
    decreases nodes,
{
    forall|i: int|
        0 <= i < nodes.len() ==> h >= 1 && within_levels((#[trigger] nodes[i]).children, h - 1)
}

/// What keeps the tree of a walk within its depth limit: the frames are the
/// documents at depths 1, 2, ... in order, none below the limit, each
/// frame's nodes reach no deeper than the limit allows below it, and the
/// awaited document is one level below the innermost frame.
pub open spec fn walk_levels_wf(s: WalkState) -> bool {
    &&& forall|k: int| 0 <= k < s.frames.len() ==> #[trigger] s.frames[k].depth == k + 1
    &&& s.frames.len() <= s.max_depth
    &&& forall|k: int|
        0 <= k < s.frames.len() ==> within_levels(
            (#[trigger] s.frames[k]).nodes,
            s.max_depth - s.frames[k].depth + 1,
        )
    &&& s.awaiting matches Some(d) ==> d == s.frames.len() + 1 && d <= s.max_depth
}

/// The levels promise of a part of a step, seen from the walk it started from.
pub open spec fn levels_ok(s: WalkState, r: (WalkState, WalkActionView)) -> bool {
    &&& r.0.max_depth == s.max_depth
    &&& walk_levels_wf(r.0)
    &&& (r.1 matches WalkActionView::Done(Ok(ns)) ==> within_levels(ns, s.max_depth as int))
}

proof fn lemma_within_push(ns: Seq<NodeView>, n: NodeView, h: int)
    requires
        within_levels(ns, h),
        h >= 1,
        within_levels(n.children, h - 1),
    ensures
        within_levels(ns.push(n), h),
{
    assert forall|i: int| 0 <= i < ns.push(n).len() implies h >= 1 && within_levels(
        (#[trigger] ns.push(n)[i]).children,
        h - 1,
    ) by {
        if i < ns.len() {
            assert(ns.push(n)[i] == ns[i]);
        }
    }
}

proof fn lemma_levels_set_top(s: WalkState, g: FrameView)
    requires
        walk_levels_wf(s),
        s.frames.len() > 0,
        s.awaiting is None,
        g.depth == s.frames.last().depth,
        within_levels(g.nodes, s.max_depth - g.depth + 1),
    ensures
        walk_levels_wf(set_top(s, g)),
{
    let t = set_top(s, g);
    assert forall|k: int| 0 <= k < t.frames.len() implies #[trigger] t.frames[k].depth == k + 1 && within_levels(
        t.frames[k].nodes,
        t.max_depth - t.frames[k].depth + 1,
    ) by {
        if k < t.frames.len() - 1 {
            assert(t.frames[k] == s.frames[k]);
        } else {
            assert(s.frames[s.frames.len() - 1].depth == s.frames.len());
        }
    }
}

proof fn lemma_levels_enter(s: WalkState, url: Seq<char>, depth: int)
    requires
        walk_levels_wf(s),
        s.awaiting is None,
        depth == s.frames.len() + 1,
    ensures
        levels_ok(s, enter(s, url, depth)),
    decreases measure(s.frames), 3int,
{
    if depth > s.max_depth || s.visited.contains(url) {
        lemma_levels_deliver(s, seq![]);
    }
}

proof fn lemma_levels_deliver(s: WalkState, nodes: Seq<NodeView>)
    requires
        walk_levels_wf(s),
        s.awaiting is None,
        within_levels(nodes, s.max_depth - s.frames.len()),
    ensures
        levels_ok(s, deliver(s, nodes)),
    decreases measure(s.frames), 2int,
{
    if s.frames.len() > 0 {
        let f = s.frames.last();
        assert(f == s.frames[s.frames.len() - 1]);
        let g = match f.pending {
            Some(loc) => FrameView {
                nodes: f.nodes.push(NodeView { loc: loc, title: Some(short_title_spec(loc)), children: nodes }),
                pending: None,
                ..f
            },
            None => f,
        };
        if let Some(loc) = f.pending {
            lemma_within_push(
                f.nodes,
                NodeView { loc: loc, title: Some(short_title_spec(loc)), children: nodes },
                s.max_depth - f.depth + 1,
            );
        }
        lemma_levels_set_top(s, g);
        lemma_set_top_measure(s, g);
        lemma_levels_advance(set_top(s, g));
    }
}

proof fn lemma_levels_advance(s: WalkState)
    requires
        walk_levels_wf(s),
        s.awaiting is None,
    ensures
        levels_ok(s, advance(s)),
    decreases measure(s.frames), 1int,
{
    if s.frames.len() > 0 {
        let f = s.frames.last();
        assert(f == s.frames[s.frames.len() - 1]);
        if 0 <= f.next < f.locs.len() {
            let loc = f.locs[f.next];
            let f1 = FrameView { next: f.next + 1, ..f };
            if !same_origin_spec(s.base, loc) {
                lemma_levels_set_top(s, f1);
                lemma_set_top_measure(s, f1);
                lemma_levels_advance(set_top(s, f1));
            } else if f.depth < s.max_depth && is_xml(loc) {
                let g = FrameView { pending: Some(loc), ..f1 };
                lemma_levels_set_top(s, g);
                lemma_set_top_measure(s, g);
                lemma_levels_enter(set_top(s, g), loc, f.depth + 1);
            } else {
                let g = FrameView { nodes: f1.nodes.push(leaf(loc)), ..f1 };
                assert(within_levels(leaf(loc).children, s.max_depth - f.depth));
                lemma_within_push(f1.nodes, leaf(loc), s.max_depth - f.depth + 1);
                lemma_levels_set_top(s, g);
                lemma_set_top_measure(s, g);
                lemma_levels_advance(set_top(s, g));
            }
        } else {
            let t = WalkState { frames: s.frames.drop_last(), ..s };
            assert(walk_levels_wf(t)) by {
                assert forall|k: int| 0 <= k < t.frames.len() implies #[trigger] t.frames[k].depth == k + 1
                    && within_levels(t.frames[k].nodes, t.max_depth - t.frames[k].depth + 1) by {
                    assert(t.frames[k] == s.frames[k]);
                }
            }
            lemma_levels_deliver(t, f.nodes);
        }
    }
}

/// The tree of a walk reaches no deeper than its limit: started well, and
/// stepped from a well-formed walk that awaits a document, a finished walk
/// gives nodes at most `max_depth` levels deep.
pub proof fn law_walk_levels(base: WebUrlView, source: Seq<char>, limit: u32, s: WalkState, ev: OutcomeView)
    ensures
        levels_ok(
            WalkState { base: base, max_depth: limit, visited: seq![], frames: seq![], awaiting: None },
            walk_start_spec(base, source, limit),
        ),
        walk_levels_wf(s) && s.awaiting is Some ==> levels_ok(s, walk_step_spec(s, ev)),
{
    let s0 = WalkState { base: base, max_depth: limit, visited: seq![], frames: seq![], awaiting: None };
    lemma_levels_enter(s0, source, 1);
    if walk_levels_wf(s) && s.awaiting is Some {
        let d = s.awaiting.unwrap();
        let t = WalkState { awaiting: None, ..s };
        assert(walk_levels_wf(t));
        match ev {
            OutcomeView::Failed(e) => {},
            OutcomeView::Response { status, body, .. } => {
                if !(200 <= status < 300) {
                    lemma_levels_deliver(t, seq![]);
                } else {
                    match locs_from(xml_tokens(body), 0, seq![]) {
                        Err(e) => {},
                        Ok(locs) => {
                            let fr = FrameView { depth: d, locs: locs, next: 0, nodes: seq![], pending: None };
                            let u = WalkState { frames: t.frames.push(fr), ..t };
                            assert(walk_levels_wf(u)) by {
                                assert forall|k: int| 0 <= k < u.frames.len() implies #[trigger] u.frames[k].depth
                                    == k + 1 && within_levels(u.frames[k].nodes, u.max_depth - u.frames[k].depth + 1) by {
                                    if k < t.frames.len() {
                                        assert(u.frames[k] == t.frames[k]);
                                    }
                                }
                            }
                            lemma_levels_advance(u);
                        },
                    }
                }
            },
        }
    }
}

/// A nested sitemap document that answers outside 200..300 ends only
/// itself: when a document listed by another is awaited and its answer is
/// refused, its location becomes a childless node (titled by its short
/// title) of the listing document, and reading that document's remaining
/// locations goes on exactly as after any other nested document; the walk
/// neither fails nor ends there.
pub proof fn law_refused_nested_document(
    s: WalkState,
    status: u16,
    final_url: Seq<char>,
    body: Seq<u8>,
)
    requires
        s.frames.len() > 0,
        s.awaiting is Some,
        s.frames.last().pending is Some,
        !(200 <= status < 300),
    ensures
        ({
            let f = s.frames.last();
            let loc = f.pending.unwrap();
            let g = FrameView {
                nodes: f.nodes.push(NodeView { loc: loc, title: Some(short_title_spec(loc)), children: seq![] }),
                pending: None,
                ..f
            };
            walk_step_spec(s, OutcomeView::Response { status, final_url, body }) == advance(
                WalkState { frames: s.frames.drop_last().push(g), awaiting: None, ..s },
            )
        }),
{
}

/// The walk and its last action after the runner has handed back the
/// outcomes `evs`, one per fetch asked for, in order; outcomes after the
/// walk is over change nothing.
pub open spec fn walk_run(base: WebUrlView, source: Seq<char>, limit: u32, evs: Seq<OutcomeView>) -> (
    WalkState,
    WalkActionView,
)
    decreases evs.len(),
{
    if evs.len() == 0 {
        walk_start_spec(base, source, limit)
    } else {
        let prev = walk_run(base, source, limit, evs.drop_last());
        match prev.1 {
            WalkActionView::Fetch(_) => walk_step_spec(prev.0, evs.last()),
            WalkActionView::Done(_) => prev,
        }
    }
}

/// The documents the walk asked for over that run, in order.
pub open spec fn run_fetches(base: WebUrlView, source: Seq<char>, limit: u32, evs: Seq<OutcomeView>) -> Seq<
    Seq<char>,
>
    decreases evs.len(),
{
    let now = walk_run(base, source, limit, evs);
    let asked: Seq<Seq<char>> = match now.1 {
        WalkActionView::Fetch(u) => seq![u],
        WalkActionView::Done(_) => seq![],
    };
    if evs.len() == 0 {
        asked
    } else {
        match walk_run(base, source, limit, evs.drop_last()).1 {
            WalkActionView::Fetch(_) => run_fetches(base, source, limit, evs.drop_last()) + asked,
            WalkActionView::Done(_) => run_fetches(base, source, limit, evs.drop_last()),
        }
    }
}

/// What holds of a walk at every point of a run.
pub open spec fn run_inv(base: WebUrlView, limit: u32, r: (WalkState, WalkActionView), fetched: Seq<Seq<char>>) -> bool {
    &&& r.0.base == base
    &&& r.0.max_depth == limit
    &&& walk_wf(r.0)
    &&& walk_levels_wf(r.0)
    &&& r.0.visited == fetched
    &&& fetched.no_duplicates()
    &&& (r.1 is Fetch ==> r.0.awaiting is Some)
    &&& (r.1 matches WalkActionView::Done(Ok(ns)) ==> tree_shaped(base, ns) && within_levels(
        ns,
        limit as int,
    ))
}

proof fn lemma_run_inv(base: WebUrlView, source: Seq<char>, limit: u32, evs: Seq<OutcomeView>)
    ensures
        run_inv(base, limit, walk_run(base, source, limit, evs), run_fetches(base, source, limit, evs)),
    decreases evs.len(),
{
    let s0 = WalkState { base: base, max_depth: limit, visited: seq![], frames: seq![], awaiting: None };
    if evs.len() == 0 {
        law_walk(base, source, limit, s0, OutcomeView::Failed(seq![]));
        law_walk_levels(base, source, limit, s0, OutcomeView::Failed(seq![]));
        let r = walk_start_spec(base, source, limit);
        match r.1 {
            WalkActionView::Fetch(u) => {
                assert(r.0.visited =~= seq![u]);
            },
            WalkActionView::Done(_) => {
                assert(r.0.visited =~= Seq::<Seq<char>>::empty());
            },
        }
    } else {
        lemma_run_inv(base, source, limit, evs.drop_last());
        let prev = walk_run(base, source, limit, evs.drop_last());
        let pf = run_fetches(base, source, limit, evs.drop_last());
        match prev.1 {
            WalkActionView::Fetch(_) => {
                law_walk(base, source, limit, prev.0, evs.last());
                law_walk_levels(base, source, limit, prev.0, evs.last());
                let r = walk_step_spec(prev.0, evs.last());
                match r.1 {
                    WalkActionView::Fetch(u) => {
                        assert(pf + seq![u] =~= pf.push(u));
                        assert((pf.push(u)).no_duplicates()) by {
                            assert forall|i: int, j: int| 0 <= i < j < pf.push(u).len() implies pf.push(
                                u,
                            )[i] != pf.push(u)[j] by {
                                if j == pf.len() {
                                    assert(pf.push(u)[i] == pf[i]);
                                    assert(pf.contains(pf[i]));
                                } else {
                                    assert(pf.push(u)[i] == pf[i] && pf.push(u)[j] == pf[j]);
                                }
                            }
                        }
                    },
                    WalkActionView::Done(_) => {
                        assert(pf + Seq::<Seq<char>>::empty() =~= pf);
                    },
                }
            },
            WalkActionView::Done(_) => {},
        }
    }
}

/// The whole run of a sitemap walk, whatever the fetches answer: each
/// document is asked for at most once (the documents asked for are the
/// walk's record of them, with no repeat, so cyclic sitemap indexes end),
/// and when the walk is over with a tree, every node of it, at any depth,
/// is a location of the site's origin titled by its short title, only
/// sitemap documents have children, and the tree is at most `limit` levels
/// deep.
pub proof fn law_walk_run(base: WebUrlView, source: Seq<char>, limit: u32, evs: Seq<OutcomeView>)
    ensures
        ({
            let r = walk_run(base, source, limit, evs);
            let fetched = run_fetches(base, source, limit, evs);
            &&& fetched.no_duplicates()
            &&& r.0.visited == fetched
            &&& (r.1 matches WalkActionView::Fetch(u) ==> fetched.last() == u)
            &&& (r.1 matches WalkActionView::Done(Ok(ns)) ==> tree_shaped(base, ns) && within_levels(
                ns,
                limit as int,
            ))
        }),
{
    lemma_run_inv(base, source, limit, evs);
    let r = walk_run(base, source, limit, evs);
    if r.1 is Fetch {
        if evs.len() > 0 {
            let prev = walk_run(base, source, limit, evs.drop_last());
            if prev.1 is Done {
                assert(false);
            }
        }
    }
}

/// The locations of a list of nodes.
pub open spec fn node_locs(ns: Seq<NodeView>) -> Seq<Seq<char>> {
    ns.map_values(|n: NodeView| n.loc)
}

/// The locations of `locs` of the origin of `base`, in order.
pub open spec fn kept_locs(base: WebUrlView, locs: Seq<Seq<char>>) -> Seq<Seq<char>> {
    locs.filter(|l: Seq<char>| same_origin_spec(base, l))
}

/// The location whose document a frame reads for its next node, if any.
spec fn pend(f: FrameView) -> Seq<Seq<char>> {
    match f.pending {
        Some(l) => seq![l],
        None => seq![],
    }
}

/// The walk reads the site's sitemap, listing `l`, as its outermost frame:
/// the nodes made of it so far, with the location whose document is being
/// read for the next one, are its locations looked at so far that are of
/// the site's origin; and every frame under the innermost one waits on the
/// document of its pending location.
spec fn root_ok(s: WalkState, l: Seq<Seq<char>>) -> bool {
    &&& s.frames.len() >= 1
    &&& s.frames[0].locs == l
    &&& 0 <= s.frames[0].next <= l.len()
    &&& node_locs(s.frames[0].nodes) + pend(s.frames[0]) == kept_locs(s.base, l.take(s.frames[0].next))
    &&& forall|k: int| 0 <= k < s.frames.len() - 1 ==> (#[trigger] s.frames[k]).pending is Some
}

/// What a part of a walk gives, for the site's sitemap listing `l`: a
/// fetch leaves the walk reading it and awaiting a nested document; a tree
/// has the sitemap's locations of the site's origin as its top level.
spec fn top_ok(r: (WalkState, WalkActionView), base: WebUrlView, l: Seq<Seq<char>>) -> bool {
    &&& r.1 is Fetch ==> root_ok(r.0, l) && r.0.frames.last().pending is Some && r.0.awaiting is Some
        && r.0.base == base
    &&& r.1 matches WalkActionView::Done(Ok(ns)) ==> node_locs(ns) == kept_locs(base, l)
}

proof fn lemma_kept_step(base: WebUrlView, l: Seq<Seq<char>>, n: int)
    requires
        0 <= n < l.len(),
    ensures
        kept_locs(base, l.take(n + 1)) == if same_origin_spec(base, l[n]) {
            kept_locs(base, l.take(n)).push(l[n])
        } else {
            kept_locs(base, l.take(n))
        },
{
    reveal(Seq::filter);
    assert(l.take(n + 1).drop_last() =~= l.take(n));
    assert(l.take(n + 1).last() == l[n]);
}

proof fn lemma_locs_push(ns: Seq<NodeView>, n: NodeView)
    ensures
        node_locs(ns.push(n)) == node_locs(ns).push(n.loc),
{
    assert(node_locs(ns.push(n)) =~= node_locs(ns).push(n.loc));
}

proof fn lemma_root_set_top(s: WalkState, l: Seq<Seq<char>>, g: FrameView)
    requires
        root_ok(s, l),
        s.frames.len() >= 2,
    ensures
        root_ok(set_top(s, g), l),
{
    let t = set_top(s, g);
    assert(t.frames[0] == s.frames[0]);
    assert forall|k: int| 0 <= k < t.frames.len() - 1 implies (#[trigger] t.frames[k]).pending is Some by {
        assert(t.frames[k] == s.frames[k]);
    }
}

proof fn lemma_top_enter(s: WalkState, l: Seq<Seq<char>>, url: Seq<char>, depth: int)
    requires
        root_ok(s, l),
        s.frames.last().pending is Some,
    ensures
        top_ok(enter(s, url, depth), s.base, l),
    decreases measure(s.frames), 3int,
{
    if depth > s.max_depth || s.visited.contains(url) {
        lemma_top_deliver(s, l, seq![]);
    }
}

proof fn lemma_top_deliver(s: WalkState, l: Seq<Seq<char>>, nodes: Seq<NodeView>)
    requires
        (s.frames.len() == 0 && node_locs(nodes) == kept_locs(s.base, l)) || (root_ok(s, l)
            && s.frames.last().pending is Some),
    ensures
        top_ok(deliver(s, nodes), s.base, l),
    decreases measure(s.frames), 2int,
{
    if s.frames.len() > 0 {
        let f = s.frames.last();
        let loc = f.pending.unwrap();
        let node = NodeView { loc: loc, title: Some(short_title_spec(loc)), children: nodes };
        let g = FrameView { nodes: f.nodes.push(node), pending: None, ..f };
        lemma_set_top_measure(s, g);
        let t = set_top(s, g);
        if s.frames.len() == 1 {
            assert(f == s.frames[0]);
            lemma_locs_push(f.nodes, node);
            assert(node_locs(g.nodes) + pend(g) =~= node_locs(f.nodes) + pend(f));
            assert(t.frames[0] == g);
            assert(root_ok(t, l));
        } else {
            lemma_root_set_top(s, l, g);
        }
        lemma_top_advance(t, l);
    }
}

proof fn lemma_top_advance(s: WalkState, l: Seq<Seq<char>>)
    requires
        root_ok(s, l),
        s.frames.last().pending is None,
    ensures
        top_ok(advance(s), s.base, l),
    decreases measure(s.frames), 1int,
{
    let f = s.frames.last();
    if 0 <= f.next < f.locs.len() {
        let loc = f.locs[f.next];
        let f1 = FrameView { next: f.next + 1, ..f };
        let root = s.frames.len() == 1;
        if root {
            assert(f == s.frames[0]);
            lemma_kept_step(s.base, l, f.next);
        }
        if !same_origin_spec(s.base, loc) {
            lemma_set_top_measure(s, f1);
            if root {
                assert(set_top(s, f1).frames[0] == f1);
                assert(root_ok(set_top(s, f1), l));
            } else {
                lemma_root_set_top(s, l, f1);
            }
            lemma_top_advance(set_top(s, f1), l);
        } else if f.depth < s.max_depth && is_xml(loc) {
            let g = FrameView { pending: Some(loc), ..f1 };
            lemma_set_top_measure(s, g);
            if root {
                assert(set_top(s, g).frames[0] == g);
                assert(node_locs(g.nodes) + pend(g) =~= (node_locs(f.nodes) + pend(f)).push(loc));
                assert(root_ok(set_top(s, g), l));
            } else {
                lemma_root_set_top(s, l, g);
            }
            lemma_top_enter(set_top(s, g), l, loc, f.depth + 1);
        } else {
            let g = FrameView { nodes: f1.nodes.push(leaf(loc)), ..f1 };
            lemma_set_top_measure(s, g);
            if root {
                lemma_locs_push(f1.nodes, leaf(loc));
                assert(set_top(s, g).frames[0] == g);
                assert(node_locs(g.nodes) + pend(g) =~= (node_locs(f.nodes) + pend(f)).push(loc));
                assert(root_ok(set_top(s, g), l));
            } else {
                lemma_root_set_top(s, l, g);
            }
            lemma_top_advance(set_top(s, g), l);
        }
    } else {
        let t = WalkState { frames: s.frames.drop_last(), ..s };
        if s.frames.len() == 1 {
            assert(f == s.frames[0]);
            assert(l.take(f.next) =~= l);
            assert(node_locs(f.nodes) + pend(f) =~= node_locs(f.nodes));
        } else {
            assert(t.frames[0] == s.frames[0]);
            assert(t.frames.last() == s.frames[s.frames.len() - 2]);
            assert forall|k: int| 0 <= k < t.frames.len() - 1 implies (#[trigger] t.frames[k]).pending
                is Some by {
                assert(t.frames[k] == s.frames[k]);
            }
        }
        lemma_top_deliver(t, l, f.nodes);
    }
}

proof fn lemma_top_step(s: WalkState, l: Seq<Seq<char>>, ev: OutcomeView)
    requires
        root_ok(s, l),
        s.frames.last().pending is Some,
        s.awaiting is Some,
    ensures
        top_ok(walk_step_spec(s, ev), s.base, l),
{
    let d = s.awaiting.unwrap();
    let t = WalkState { awaiting: None, ..s };
    assert(root_ok(t, l));
    match ev {
        OutcomeView::Failed(_) => {},
        OutcomeView::Response { status, body, .. } => {
            if !(200 <= status < 300) {
                lemma_top_deliver(t, l, seq![]);
            } else {
                match locs_from(xml_tokens(body), 0, seq![]) {
                    Err(_) => {},
                    Ok(locs) => {
                        let fr = FrameView { depth: d, locs: locs, next: 0, nodes: seq![], pending: None };
                        let u = WalkState { frames: t.frames.push(fr), ..t };
                        assert(u.frames[0] == t.frames[0]);
                        assert forall|k: int| 0 <= k < u.frames.len() - 1 implies (
                        #[trigger] u.frames[k]).pending is Some by {
                            assert(u.frames[k] == t.frames[k]);
                        }
                        assert(root_ok(u, l));
                        lemma_top_advance(u, l);
                    },
                }
            }
        },
    }
}

proof fn lemma_top_run(base: WebUrlView, source: Seq<char>, limit: u32, evs: Seq<OutcomeView>, l: Seq<Seq<char>>)
    requires
        limit >= 1,
        evs.len() >= 1,
        evs[0] matches OutcomeView::Response { status, body, .. } && 200 <= status < 300
            && locs_from(xml_tokens(body), 0, seq![]) == Ok::<Seq<Seq<char>>, Seq<char>>(l),
    ensures
        top_ok(walk_run(base, source, limit, evs), base, l),
    decreases evs.len(),
{
    if evs.len() == 1 {
        assert(evs.drop_last() =~= Seq::<OutcomeView>::empty());
        let st = walk_start_spec(base, source, limit);
        let t = WalkState { awaiting: None, ..st.0 };
        let fr = FrameView { depth: 1, locs: l, next: 0, nodes: seq![], pending: None };
        let u = WalkState { frames: t.frames.push(fr), ..t };
        assert(u.frames[0] == fr);
        assert(l.take(0) =~= Seq::<Seq<char>>::empty());
        assert(kept_locs(base, l.take(0)) =~= Seq::<Seq<char>>::empty()) by {
            reveal(Seq::filter);
        }
        assert(node_locs(fr.nodes) + pend(fr) =~= Seq::<Seq<char>>::empty());
        assert(root_ok(u, l));
        lemma_top_advance(u, l);
    } else {
        lemma_top_run(base, source, limit, evs.drop_last(), l);
        let prev = walk_run(base, source, limit, evs.drop_last());
        if prev.1 is Fetch {
            lemma_top_step(prev.0, l, evs.last());
        }
    }
}

/// The top level of a sitemap tree is exactly what the site's sitemap
/// lists, whatever its nested documents answer: when the site's sitemap
/// answered in 200..300 and lists the locations `l`, a walk that ends with
/// a tree has as its top-level nodes the locations of `l` of the site's
/// origin, in order. A nested document that answers outside 200..300, or
/// lists nothing, only leaves its own node without children; a failed
/// fetch or a document that does not parse ends the walk with an error
/// instead.
pub proof fn law_walk_top_level(base: WebUrlView, source: Seq<char>, limit: u32, evs: Seq<OutcomeView>)
    ensures
        limit >= 1 && evs.len() >= 1 ==> match evs[0] {
            OutcomeView::Response { status, body, .. } => 200 <= status < 300 ==> match locs_from(
                xml_tokens(body),
                0,
                seq![],
            ) {
                Ok(l) => (walk_run(base, source, limit, evs).1 matches WalkActionView::Done(Ok(ns))
                    ==> node_locs(ns) == kept_locs(base, l)),
                Err(_) => true,
            },
            OutcomeView::Failed(_) => true,
        },
{
    if limit >= 1 && evs.len() >= 1 {
        match evs[0] {
            OutcomeView::Response { status, body, .. } => {
                if 200 <= status < 300 {
                    if let Ok(l) = locs_from(xml_tokens(body), 0, seq![]) {
                        lemma_top_run(base, source, limit, evs, l);
                    }
                }
            },
            OutcomeView::Failed(_) => {},
        }
    }
}

} // verus!
