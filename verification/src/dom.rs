use vstd::prelude::*;

use crate::text::{trim, trimmed};

verus! {

/// One step of a depth-first walk over an HTML subtree: entering a node
/// (a text node with its text, an element with its tag name, or any other
/// node), or leaving the node entered last.
#[derive(Debug)]
pub enum DomEvent {
    OpenText(String),
    OpenElement(String),
    OpenOther,
    Close,
}

/// A `DomEvent` with its strings taken as character sequences.
pub enum DomEventView {
    OpenText(Seq<char>),
    OpenElement(Seq<char>),
    OpenOther,
    Close,
}

impl View for DomEvent {
    type V = DomEventView;

    open spec fn view(&self) -> DomEventView {
        match self {
            DomEvent::OpenText(t) => DomEventView::OpenText(t@),
            DomEvent::OpenElement(n) => DomEventView::OpenElement(n@),
            DomEvent::OpenOther => DomEventView::OpenOther,
            DomEvent::Close => DomEventView::Close,
        }
    }
}

pub open spec fn events_view(events: Seq<DomEvent>) -> Seq<DomEventView> {
    events.map_values(|e: DomEvent| e@)
}

/// For each element that `outer` selects in the document `html`, the walk over
/// the first element inside it that `inner` selects, if any; `None` when a
/// selector does not parse.
pub uninterp spec fn html_select_first(
    html: Seq<char>,
    outer: Seq<char>,
    inner: Seq<char>,
) -> Option<Seq<Option<Seq<DomEventView>>>>;

pub open spec fn walks_view(walks: Seq<Option<Vec<DomEvent>>>) -> Seq<Option<Seq<DomEventView>>> {
    walks.map_values(
        |w: Option<Vec<DomEvent>>|
            match w {
                Some(ev) => Some(events_view(ev@)),
                None => None,
            },
    )
}

/// Parses `html` as a document with `scraper::Html::parse_document`, selects
/// the elements matching `outer` with `Html::select` and, for each, the first
/// element inside it matching `inner` with `ElementRef::select`; the found
/// element's subtree is walked with `NodeRef::traverse` and each edge is
/// converted to a `DomEvent`. The result is named `html_select_first`.
#[verifier::external_body]
pub(crate) fn select_first_within(html: &str, outer: &str, inner: &str) -> (res: Option<
    Vec<Option<Vec<DomEvent>>>,
>)
    ensures
        match res {
            Some(walks) => html_select_first(html@, outer@, inner@) == Some(walks_view(walks@)),
            None => html_select_first(html@, outer@, inner@) is None,
        },
{
    let doc = scraper::Html::parse_document(html);
    let outer_sel = scraper::Selector::parse(outer).ok()?;
    let inner_sel = scraper::Selector::parse(inner).ok()?;
    Some(doc.select(&outer_sel).map(|m| m.select(&inner_sel).next().map(|e| e.traverse().map(|edge| match edge {
        ego_tree::iter::Edge::Open(node) => match node.value() {
            scraper::Node::Text(t) => DomEvent::OpenText(t.text.to_string()),
            scraper::Node::Element(el) => DomEvent::OpenElement(el.name().to_string()),
            _ => DomEvent::OpenOther,
        },
        ego_tree::iter::Edge::Close(_) => DomEvent::Close,
    }).collect())).collect())
}

/// Text gathered from a walk, together with how many entered nodes are being
/// skipped because they lie inside a `<br>`: text nodes contribute their
/// text, a `<br>` element contributes a newline and hides its content.
pub open spec fn walk_text(events: Seq<DomEventView>) -> (Seq<char>, nat)
    decreases events.len(),
{
    if events.len() == 0 {
        (seq![], 0)
    } else {
        let (t, skip) = walk_text(events.drop_last());
        if skip > 0 {
            match events.last() {
                DomEventView::Close => (t, (skip - 1) as nat),
                _ => (t, skip + 1),
            }
        } else {
            match events.last() {
                DomEventView::OpenText(s) => (t + s, 0),
                DomEventView::OpenElement(name) => if name == seq!['b', 'r'] {
                    (t.push('\n'), 1)
                } else {
                    (t, 0)
                },
                _ => (t, 0),
            }
        }
    }
}

/// Text of the text nodes that are direct children of the walked element,
/// together with the current nesting depth of the walk.
pub open spec fn walk_direct_text(events: Seq<DomEventView>) -> (Seq<char>, int)
    decreases events.len(),
{
    if events.len() == 0 {
        (seq![], 0)
    } else {
        let (t, depth) = walk_direct_text(events.drop_last());
        match events.last() {
            DomEventView::OpenText(s) => (if depth == 1 {
                t + s
            } else {
                t
            }, depth + 1),
            DomEventView::Close => (t, depth - 1),
            _ => (t, depth + 1),
        }
    }
}

fn is_br(name: &String) -> (res: bool)
    ensures
        res == (name@ == seq!['b', 'r']),
{
    let cs = crate::text::chars_of(name.as_str());
    let res = cs.len() == 2 && cs[0] == 'b' && cs[1] == 'r';
    proof {
        if res {
            assert(cs@ =~= seq!['b', 'r']);
        }
        if cs@ == seq!['b', 'r'] {
            assert(cs@[0] == 'b' && cs@[1] == 'r');
        }
    }
    res
}

/// Appends to `text` the text of a walked subtree, with a newline for each
/// `<br>`.
pub fn traverse(events: &Vec<DomEvent>, text: &mut String)
    ensures
        final(text)@ == old(text)@ + walk_text(events_view(events@)).0,
{
    let ghost ev = events_view(events@);
    let mut skip: usize = 0;
    let mut i: usize = 0;
    while i < events.len()
        invariant
            i <= events.len(),
            ev == events_view(events@),
            text@ == old(text)@ + walk_text(ev.take(i as int)).0,
            skip == walk_text(ev.take(i as int)).1,
            skip <= i,
        decreases events.len() - i,
    {
        assert(ev.take((i + 1) as int).drop_last() =~= ev.take(i as int));
        assert(ev.take((i + 1) as int).last() == events@[i as int]@);
        if skip > 0 {
            match &events[i] {
                DomEvent::Close => {
                    skip = skip - 1;
                },
                _ => {
                    skip = skip + 1;
                },
            }
        } else {
            match &events[i] {
                DomEvent::OpenText(s) => {
                    text.append(s.as_str());
                },
                DomEvent::OpenElement(name) => {
                    if is_br(name) {
                        text.push('\n');
                        skip = 1;
                    }
                },
                _ => {},
            }
        }
        i = i + 1;
    }
    assert(ev.take(events.len() as int) =~= ev);
}

/// The text of a walk read flat: every text node's text and a newline for
/// each `<br>`, in order, regardless of nesting.
pub open spec fn flat_text(events: Seq<DomEventView>) -> Seq<char>
    decreases events.len(),
{
    if events.len() == 0 {
        seq![]
    } else {
        flat_text(events.drop_last()) + match events.last() {
            DomEventView::OpenText(s) => s,
            DomEventView::OpenElement(name) => if name == seq!['b', 'r'] {
                seq!['\n']
            } else {
                seq![]
            },
            _ => seq![],
        }
    }
}

/// Whether every `<br>` in the walk is left right after it is entered, as for
/// the empty `<br>` elements of parsed HTML.
pub open spec fn brs_are_empty(events: Seq<DomEventView>) -> bool {
    forall|k: int|
        0 <= k < events.len() - 1 && #[trigger] events[k] == DomEventView::OpenElement(
            seq!['b', 'r'],
        ) ==> events[k + 1] == DomEventView::Close
}

/// Text extraction law: when every `<br>` is empty, the text of a walk is
/// the text of all its text nodes, in order, with a newline for each `<br>`;
/// no element other than `<br>` hides its content.
pub proof fn lemma_walk_text_is_flat(events: Seq<DomEventView>)
    requires
        brs_are_empty(events),
    ensures
        walk_text(events).0 == flat_text(events),
        walk_text(events).1 == (if events.len() > 0 && events.last() == DomEventView::OpenElement(
            seq!['b', 'r'],
        ) {
            1nat
        } else {
            0nat
        }),
    decreases events.len(),
{
    if events.len() > 0 {
        let p = events.drop_last();
        assert forall|k: int|
            0 <= k < p.len() - 1 && #[trigger] p[k] == DomEventView::OpenElement(
                seq!['b', 'r'],
            ) implies p[k + 1] == DomEventView::Close by {
            assert(events[k] == p[k]);
            assert(events[k + 1] == p[k + 1]);
        }
        lemma_walk_text_is_flat(p);
        if p.len() > 0 && p.last() == DomEventView::OpenElement(seq!['b', 'r']) {
            let k = p.len() - 1;
            assert(events[k] == p.last());
            assert(events[k + 1] == DomEventView::Close);
            assert(events.last() == DomEventView::Close);
        }
    }
}

/// How many nodes are open after the walk `events`: one more for each node
/// entered, one less for each node left.
pub open spec fn open_count(events: Seq<DomEventView>) -> int
    decreases events.len(),
{
    if events.len() == 0 {
        0
    } else {
        open_count(events.drop_last()) + if events.last() is Close {
            -1int
        } else {
            1int
        }
    }
}

/// Whether event `k` enters a text node while exactly one node, the walked
/// element, is open: a text child of that element.
pub open spec fn is_direct_text_event(events: Seq<DomEventView>, k: int) -> bool {
    events[k] is OpenText && open_count(events.take(k)) == 1
}

/// The texts of the events that enter direct text children, in order.
pub open spec fn direct_texts(events: Seq<DomEventView>) -> Seq<char>
    decreases events.len(),
{
    if events.len() == 0 {
        seq![]
    } else {
        direct_texts(events.drop_last()) + if is_direct_text_event(events, events.len() - 1) {
            events.last()->OpenText_0
        } else {
            seq![]
        }
    }
}

/// Direct text law: the direct text of a walk is the text of exactly those
/// text nodes entered while only the walked element is open; text inside
/// any child element is left out.
pub proof fn lemma_direct_text_is_children_text(events: Seq<DomEventView>)
    ensures
        walk_direct_text(events).0 == direct_texts(events),
        walk_direct_text(events).1 == open_count(events),
    decreases events.len(),
{
    if events.len() > 0 {
        let p = events.drop_last();
        lemma_direct_text_is_children_text(p);
        assert(events.take(events.len() - 1) =~= p);
    }
}

/// The text of a walked element, with `<br>` as newlines and surrounding white
/// space trimmed.
pub fn extract_text(events: &Vec<DomEvent>) -> (res: String)
    ensures
        res@ == trim(walk_text(events_view(events@)).0),
{
    let mut text = String::new();
    traverse(events, &mut text);
    trimmed(text.as_str())
}

/// The trimmed text of the text nodes that are direct children of the walked
/// element; text nested in child elements (such as dates) is left out.
pub fn direct_text(events: &Vec<DomEvent>) -> (res: String)
    ensures
        res@ == trim(walk_direct_text(events_view(events@)).0),
{
    let ghost ev = events_view(events@);
    let mut text = String::new();
    let mut depth: i128 = 0;
    let mut i: usize = 0;
    while i < events.len()
        invariant
            i <= events.len(),
            ev == events_view(events@),
            text@ == walk_direct_text(ev.take(i as int)).0,
            depth == walk_direct_text(ev.take(i as int)).1,
            -(i as int) <= depth <= i,
        decreases events.len() - i,
    {
        assert(ev.take((i + 1) as int).drop_last() =~= ev.take(i as int));
        assert(ev.take((i + 1) as int).last() == events@[i as int]@);
        match &events[i] {
            DomEvent::OpenText(s) => {
                if depth == 1 {
                    text.append(s.as_str());
                }
                depth = depth + 1;
            },
            DomEvent::Close => {
                depth = depth - 1;
            },
            _ => {
                depth = depth + 1;
            },
        }
        i = i + 1;
    }
    assert(ev.take(events.len() as int) =~= ev);
    trimmed(text.as_str())
}

} // verus!
