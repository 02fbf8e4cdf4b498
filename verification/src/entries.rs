use vstd::prelude::*;

use crate::dom::{
    direct_text, extract_text, html_select_first, select_first_within, walk_direct_text,
    walk_text, walks_view, DomEvent, DomEventView,
};
use crate::text::{lemma_trim_idempotent, trim};

verus! {

/// Selector of one message of a Telegram chat export.
pub const MESSAGE_SELECTOR: &'static str = "div.message.default";

/// Selector of the sender name inside a message.
pub const FROM_NAME_SELECTOR: &'static str = "div.from_name";

/// Selector of the text of a message.
pub const TEXT_SELECTOR: &'static str = "div.text";

/// Selector of the media attachment of a message.
pub const MEDIA_SELECTOR: &'static str = "div.media_wrap";

/// What a message carries besides its sender.
pub enum MessageBody {
    Text(String),
    Media,
}

/// One message element of an export: a change of the current sender, a body,
/// or both.
pub struct RawEntry {
    pub sender_update: Option<String>,
    pub body: Option<MessageBody>,
}

pub enum BodyView {
    Text(Seq<char>),
    Media,
}

pub struct EntryView {
    pub sender_update: Option<Seq<char>>,
    pub body: Option<BodyView>,
}

impl View for MessageBody {
    type V = BodyView;

    open spec fn view(&self) -> BodyView {
        match self {
            MessageBody::Text(t) => BodyView::Text(t@),
            MessageBody::Media => BodyView::Media,
        }
    }
}

impl View for RawEntry {
    type V = EntryView;

    open spec fn view(&self) -> EntryView {
        EntryView {
            sender_update: match self.sender_update {
                Some(s) => Some(s@),
                None => None,
            },
            body: match self.body {
                Some(b) => Some(b@),
                None => None,
            },
        }
    }
}

pub open spec fn entries_view(entries: Seq<RawEntry>) -> Seq<EntryView> {
    entries.map_values(|e: RawEntry| e@)
}

/// The sender named by a message's sender element: its own trimmed text,
/// when that is not empty.
pub open spec fn sender_of(walk: Option<Seq<DomEventView>>) -> Option<Seq<char>> {
    match walk {
        Some(ev) => {
            let s = trim(walk_direct_text(ev).0);
            if s.len() > 0 {
                Some(s)
            } else {
                None
            }
        },
        None => None,
    }
}

/// The body of message `i`: its text when it has a text element (nothing when
/// that text is empty), otherwise media when it has a media element.
pub open spec fn body_of(
    texts: Seq<Option<Seq<DomEventView>>>,
    medias: Seq<Option<Seq<DomEventView>>>,
    i: int,
) -> Option<BodyView> {
    if i < texts.len() && texts[i] is Some {
        let raw = trim(walk_text(texts[i]->0).0);
        if raw.len() > 0 {
            Some(BodyView::Text(raw))
        } else {
            None
        }
    } else if i < medias.len() && medias[i] is Some {
        Some(BodyView::Media)
    } else {
        None
    }
}

/// The entries of the first `n` messages, leaving out those with neither a
/// sender nor a body.
pub open spec fn entries_upto(
    senders: Seq<Option<Seq<DomEventView>>>,
    texts: Seq<Option<Seq<DomEventView>>>,
    medias: Seq<Option<Seq<DomEventView>>>,
    n: nat,
) -> Seq<EntryView>
    decreases n,
{
    if n == 0 {
        seq![]
    } else {
        let prev = entries_upto(senders, texts, medias, (n - 1) as nat);
        let e = EntryView {
            sender_update: sender_of(senders[n - 1]),
            body: body_of(texts, medias, n - 1),
        };
        if e.sender_update is Some || e.body is Some {
            prev.push(e)
        } else {
            prev
        }
    }
}

/// The entries of all messages, one per element of `senders`.
pub open spec fn entries_spec(
    senders: Seq<Option<Seq<DomEventView>>>,
    texts: Seq<Option<Seq<DomEventView>>>,
    medias: Seq<Option<Seq<DomEventView>>>,
) -> Seq<EntryView> {
    entries_upto(senders, texts, medias, senders.len())
}

/// The entries that the export page `html` holds, when the selectors parse.
pub open spec fn html_entries(html: Seq<char>) -> Option<Seq<EntryView>> {
    match (
        html_select_first(html, MESSAGE_SELECTOR@, FROM_NAME_SELECTOR@),
        html_select_first(html, MESSAGE_SELECTOR@, TEXT_SELECTOR@),
        html_select_first(html, MESSAGE_SELECTOR@, MEDIA_SELECTOR@),
    ) {
        (Some(s), Some(t), Some(m)) => Some(entries_spec(s, t, m)),
        _ => None,
    }
}

/// The facts that hold of every extracted entry.
pub open spec fn entry_well_formed(e: EntryView) -> bool {
    &&& e.sender_update is Some || e.body is Some
    &&& e.sender_update matches Some(x) ==> x.len() > 0 && trim(x) == x
    &&& e.body matches Some(BodyView::Text(x)) ==> x.len() > 0 && trim(x) == x
}

/// Extraction law: every entry carries a sender or a body, and each sender
/// name and message text is non-empty and has no surrounding white space.
pub proof fn lemma_entries_well_formed(
    senders: Seq<Option<Seq<DomEventView>>>,
    texts: Seq<Option<Seq<DomEventView>>>,
    medias: Seq<Option<Seq<DomEventView>>>,
    n: nat,
)
    requires
        n <= senders.len(),
    ensures
        forall|k: int|
            0 <= k < entries_upto(senders, texts, medias, n).len() ==> entry_well_formed(
                #[trigger] entries_upto(senders, texts, medias, n)[k],
            ),
    decreases n,
{
    if n > 0 {
        lemma_entries_well_formed(senders, texts, medias, (n - 1) as nat);
        let i = n - 1;
        if senders[i] is Some {
            lemma_trim_idempotent(walk_direct_text(senders[i]->0).0);
        }
        if i < texts.len() && texts[i] is Some {
            lemma_trim_idempotent(walk_text(texts[i]->0).0);
        }
        let prev = entries_upto(senders, texts, medias, (n - 1) as nat);
        let e = EntryView { sender_update: sender_of(senders[i]), body: body_of(texts, medias, i) };
        let all = entries_upto(senders, texts, medias, n);
        assert forall|k: int| 0 <= k < all.len() implies entry_well_formed(#[trigger] all[k]) by {
            if k < prev.len() {
                assert(all[k] == prev[k]);
            } else {
                assert(all[k] == e);
            }
        }
    }
}

/// Extraction law: a message whose text element has a non-empty trimmed text
/// gives a new entry carrying exactly that text as its body, whatever its
/// length; entries of earlier messages stay as they are.
pub proof fn lemma_text_message_kept(
    senders: Seq<Option<Seq<DomEventView>>>,
    texts: Seq<Option<Seq<DomEventView>>>,
    medias: Seq<Option<Seq<DomEventView>>>,
    i: int,
)
    requires
        0 <= i < senders.len(),
        i < texts.len(),
        texts[i] is Some,
        trim(walk_text(texts[i]->0).0).len() > 0,
    ensures
        entries_upto(senders, texts, medias, (i + 1) as nat).len() == entries_upto(
            senders,
            texts,
            medias,
            i as nat,
        ).len() + 1,
        entries_upto(senders, texts, medias, (i + 1) as nat).drop_last() == entries_upto(
            senders,
            texts,
            medias,
            i as nat,
        ),
        entries_upto(senders, texts, medias, (i + 1) as nat).last().body == Some(
            BodyView::Text(trim(walk_text(texts[i]->0).0)),
        ),
{
    let prev = entries_upto(senders, texts, medias, i as nat);
    assert(entries_upto(senders, texts, medias, (i + 1) as nat).drop_last() =~= prev);
}

/// Extraction law: a message whose sender element has a non-empty trimmed
/// direct text gives a new entry carrying that sender, whatever its body.
pub proof fn lemma_sender_message_kept(
    senders: Seq<Option<Seq<DomEventView>>>,
    texts: Seq<Option<Seq<DomEventView>>>,
    medias: Seq<Option<Seq<DomEventView>>>,
    i: int,
)
    requires
        0 <= i < senders.len(),
        senders[i] is Some,
        trim(walk_direct_text(senders[i]->0).0).len() > 0,
    ensures
        entries_upto(senders, texts, medias, (i + 1) as nat).len() == entries_upto(
            senders,
            texts,
            medias,
            i as nat,
        ).len() + 1,
        entries_upto(senders, texts, medias, (i + 1) as nat).last().sender_update == Some(
            trim(walk_direct_text(senders[i]->0).0),
        ),
{
}

/// Extraction law: a message without a text element but with a media element
/// gives a new entry whose body is media.
pub proof fn lemma_media_message_kept(
    senders: Seq<Option<Seq<DomEventView>>>,
    texts: Seq<Option<Seq<DomEventView>>>,
    medias: Seq<Option<Seq<DomEventView>>>,
    i: int,
)
    requires
        0 <= i < senders.len(),
        i >= texts.len() || texts[i] is None,
        i < medias.len(),
        medias[i] is Some,
    ensures
        entries_upto(senders, texts, medias, (i + 1) as nat).len() == entries_upto(
            senders,
            texts,
            medias,
            i as nat,
        ).len() + 1,
        entries_upto(senders, texts, medias, (i + 1) as nat).last().body == Some(BodyView::Media),
{
}

/// Extraction law: a message with no non-empty sender and whose text element
/// is blank gives no entry, even when it also has media: the text element
/// takes priority over media.
pub proof fn lemma_blank_message_dropped(
    senders: Seq<Option<Seq<DomEventView>>>,
    texts: Seq<Option<Seq<DomEventView>>>,
    medias: Seq<Option<Seq<DomEventView>>>,
    i: int,
)
    requires
        0 <= i < senders.len(),
        senders[i] is None || trim(walk_direct_text(senders[i]->0).0).len() == 0,
        i < texts.len(),
        texts[i] is Some,
        trim(walk_text(texts[i]->0).0).len() == 0,
    ensures
        entries_upto(senders, texts, medias, (i + 1) as nat) == entries_upto(
            senders,
            texts,
            medias,
            i as nat,
        ),
{
}

/// Builds the entries of the messages of one page from, per message, the walk
/// over its sender element, its text element and its media element.
pub fn entries_from_selections(
    senders: &Vec<Option<Vec<DomEvent>>>,
    texts: &Vec<Option<Vec<DomEvent>>>,
    medias: &Vec<Option<Vec<DomEvent>>>,
) -> (res: Vec<RawEntry>)
    ensures
        entries_view(res@) == entries_spec(walks_view(senders@), walks_view(texts@), walks_view(medias@)),
{
    let ghost s = walks_view(senders@);
    let ghost t = walks_view(texts@);
    let ghost m = walks_view(medias@);
    let mut res: Vec<RawEntry> = Vec::new();
    let mut i: usize = 0;
    while i < senders.len()
        invariant
            i <= senders.len(),
            s == walks_view(senders@),
            t == walks_view(texts@),
            m == walks_view(medias@),
            entries_view(res@) == entries_upto(s, t, m, i as nat),
        decreases senders.len() - i,
    {
        let sender_update: Option<String> = match &senders[i] {
            Some(ev) => {
                let name = direct_text(ev);
                if name.as_str().is_empty() {
                    None
                } else {
                    Some(name)
                }
            },
            None => None,
        };
        let body: Option<MessageBody> = if i < texts.len() && texts[i].is_some() {
            match &texts[i] {
                Some(ev) => {
                    let raw = extract_text(ev);
                    if raw.as_str().is_empty() {
                        None
                    } else {
                        Some(MessageBody::Text(raw))
                    }
                },
                None => None,
            }
        } else if i < medias.len() && medias[i].is_some() {
            Some(MessageBody::Media)
        } else {
            None
        };
        let keep = sender_update.is_some() || body.is_some();
        let entry = RawEntry { sender_update, body };
        assert(entry@ == EntryView {
            sender_update: sender_of(s[i as int]),
            body: body_of(t, m, i as int),
        });
        let ghost prev = res@;
        if keep {
            res.push(entry);
            assert(entries_view(res@) =~= entries_view(prev).push(entry@));
        }
        i = i + 1;
    }
    res
}

/// The entries of one export page and the number of message elements in it;
/// `None` when one of the selectors does not parse.
pub fn extract_entries(html: &str) -> (res: Option<(usize, Vec<RawEntry>)>)
    ensures
        match res {
            Some((count, entries)) => {
                &&& html_entries(html@) == Some(entries_view(entries@))
                &&& html_select_first(html@, MESSAGE_SELECTOR@, FROM_NAME_SELECTOR@) matches Some(s)
                &&& count == s.len()
            },
            None => html_entries(html@) is None,
        },
{
    let senders = select_first_within(html, MESSAGE_SELECTOR, FROM_NAME_SELECTOR);
    let texts = select_first_within(html, MESSAGE_SELECTOR, TEXT_SELECTOR);
    let medias = select_first_within(html, MESSAGE_SELECTOR, MEDIA_SELECTOR);
    match (senders, texts, medias) {
        (Some(s), Some(t), Some(m)) => {
            let entries = entries_from_selections(&s, &t, &m);
            Some((s.len(), entries))
        },
        _ => None,
    }
}

} // verus!
