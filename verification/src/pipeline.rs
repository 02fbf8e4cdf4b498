use vstd::prelude::*;

use crate::entries::{entries_view, BodyView, EntryView, MessageBody, RawEntry};
use crate::participants::{
    assign_participants, build_exact_map, build_lower_map, build_names_pattern, lemma_participants,
    lower_map, placeholder,
    names_pattern, participants_spec, participants_view, Participant,
};
use crate::patterns::{lowercase, regex_compiles, split_each};
use crate::redact::{group_text, lemma_lookup_last_finds, lookup_last, name_replacement, pairs_view, redact_all, redact_text};
use crate::settings::AnonymizeSettings;

verus! {

/// Whether `regex::Regex::new` accepts `pattern`.
pub fn pattern_compiles(pattern: &str) -> (res: bool)
    ensures
        res == regex_compiles(pattern@),
{
    let none: Vec<String> = Vec::new();
    split_each(pattern, &none).is_some()
}

/// How a sender name is shown: its placeholder when names are hidden and it
/// has one, the name itself otherwise.
pub open spec fn shown_name(
    name: Seq<char>,
    hide_names: bool,
    parts: Seq<(Seq<char>, Seq<char>)>,
) -> Seq<char> {
    if hide_names {
        match lookup_last(parts, name) {
            Some(ph) => ph,
            None => name,
        }
    } else {
        name
    }
}

/// The sender shown after the first `n` entries: the latest sender update
/// among them, or nothing before the first one.
pub open spec fn current_sender(
    entries: Seq<EntryView>,
    n: int,
    hide_names: bool,
    parts: Seq<(Seq<char>, Seq<char>)>,
) -> Seq<char>
    decreases n,
{
    if n <= 0 {
        seq![]
    } else {
        match entries[n - 1].sender_update {
            Some(s) => shown_name(s, hide_names, parts),
            None => current_sender(entries, n - 1, hide_names, parts),
        }
    }
}

/// One message of the output: `**sender**: text` and an empty line, with
/// `[Unknown]` for a message that no sender precedes.
pub open spec fn block(sender: Seq<char>, text: Seq<char>) -> Seq<char> {
    "**"@ + (if sender.len() == 0 {
        "[Unknown]"@
    } else {
        sender
    }) + "**: "@ + text + "\n\n"@
}

/// The combined names pattern, when names are hidden and there is a participant.
pub open spec fn names_pattern_spec(parts: Seq<(Seq<char>, Seq<char>)>, hide_names: bool) -> Option<
    Seq<char>,
> {
    if hide_names && parts.len() > 0 {
        Some(names_pattern(parts.map_values(|p: (Seq<char>, Seq<char>)| p.0)))
    } else {
        None
    }
}

/// The output block of entry `i`: none when it has no body; otherwise the
/// current sender with the redacted text, or `[MEDIA]` for media.
pub open spec fn entry_block(
    entries: Seq<EntryView>,
    i: int,
    settings: AnonymizeSettings,
) -> Option<Seq<char>> {
    let parts = participants_spec(entries, settings.hide_names);
    let sender = current_sender(entries, i + 1, settings.hide_names, parts);
    match entries[i].body {
        Some(BodyView::Text(raw)) => Some(
            block(
                sender,
                redact_text(
                    raw,
                    settings,
                    names_pattern_spec(parts, settings.hide_names),
                    lower_map(parts),
                ),
            ),
        ),
        Some(BodyView::Media) => Some(block(sender, "[MEDIA]"@)),
        None => None,
    }
}

/// Name-hiding law: with names hidden, the sender shown for any message is
/// either empty (shown as `[Unknown]`) or the placeholder of one of the
/// participants, never a sender's own name.
pub proof fn lemma_hidden_senders_are_placeholders(entries: Seq<EntryView>, n: int)
    requires
        entries.len() <= usize::MAX,
        0 <= n <= entries.len(),
    ensures
        ({
            let parts = participants_spec(entries, true);
            let shown = current_sender(entries, n, true, parts);
            shown.len() == 0 || exists|q: int|
                0 <= q < parts.len() && shown == (#[trigger] parts[q]).1 && shown == placeholder(
                    (q + 1) as nat,
                )
        }),
    decreases n,
{
    let parts = participants_spec(entries, true);
    lemma_participants(entries);
    if n > 0 {
        match entries[n - 1].sender_update {
            Some(s) => {
                assert(entries[n - 1].sender_update is Some);
                let i = choose|i: int| 0 <= i < parts.len() && (#[trigger] parts[i]).0 == s;
                lemma_lookup_last_finds(parts, s);
            },
            None => {
                lemma_hidden_senders_are_placeholders(entries, n - 1);
            },
        }
    }
}

/// Name-masking law: with names hidden, a matched name that lowers to the
/// same text as some participant's name is replaced by the placeholder of a
/// participant with that lower-case name.
pub proof fn lemma_matched_names_become_placeholders(
    entries: Seq<EntryView>,
    g: Seq<Option<Seq<char>>>,
    i: int,
)
    requires
        entries.len() <= usize::MAX,
        0 <= i < participants_spec(entries, true).len(),
        group_text(g, 1) is Some,
        lowercase(group_text(g, 1)->0) == lowercase(participants_spec(entries, true)[i].0),
    ensures
        ({
            let parts = participants_spec(entries, true);
            exists|q: int|
                0 <= q < parts.len() && lowercase((#[trigger] parts[q]).0) == lowercase(
                    group_text(g, 1)->0,
                ) && name_replacement(g, lower_map(parts)) == placeholder((q + 1) as nat)
        }),
{
    let parts = participants_spec(entries, true);
    lemma_participants(entries);
    let lm = lower_map(parts);
    let key = lowercase(group_text(g, 1)->0);
    assert(lm[i].0 == key);
    lemma_lookup_last_finds(lm, key);
    let q = choose|q: int| 0 <= q < lm.len() && (#[trigger] lm[q]).0 == key && lookup_last(lm, key) == Some(lm[q].1);
    assert(parts[q].1 == placeholder((q + 1) as nat));
}

/// Carry-forward law: an entry without a sender update leaves the shown
/// sender as it was, whatever its body is.
pub proof fn lemma_sender_kept_without_update(
    entries: Seq<EntryView>,
    n: int,
    hide_names: bool,
    parts: Seq<(Seq<char>, Seq<char>)>,
)
    requires
        0 <= n < entries.len(),
        entries[n].sender_update is None,
    ensures
        current_sender(entries, n + 1, hide_names, parts) == current_sender(
            entries,
            n,
            hide_names,
            parts,
        ),
{
}

/// Carry-forward law: the sender shown after the first `n` entries is the
/// latest sender update among them (shown as a placeholder when names are
/// hidden), whatever bodies come after it.
pub proof fn lemma_sender_is_latest_update(
    entries: Seq<EntryView>,
    n: int,
    k: int,
    hide_names: bool,
    parts: Seq<(Seq<char>, Seq<char>)>,
)
    requires
        0 <= k < n <= entries.len(),
        entries[k].sender_update is Some,
        forall|j: int| k < j < n ==> (#[trigger] entries[j]).sender_update is None,
    ensures
        current_sender(entries, n, hide_names, parts) == shown_name(
            entries[k].sender_update->0,
            hide_names,
            parts,
        ),
        !hide_names ==> current_sender(entries, n, hide_names, parts)
            == entries[k].sender_update->0,
    decreases n,
{
    if n - 1 > k {
        assert(entries[n - 1].sender_update is None);
        lemma_sender_is_latest_update(entries, n - 1, k, hide_names, parts);
    }
}

/// Carry-forward law: before the first sender update, no sender is shown.
pub proof fn lemma_no_sender_before_first_update(
    entries: Seq<EntryView>,
    n: int,
    hide_names: bool,
    parts: Seq<(Seq<char>, Seq<char>)>,
)
    requires
        0 <= n <= entries.len(),
        forall|j: int| 0 <= j < n ==> (#[trigger] entries[j]).sender_update is None,
    ensures
        current_sender(entries, n, hide_names, parts) == Seq::<char>::empty(),
    decreases n,
{
    if n > 0 {
        assert(entries[n - 1].sender_update is None);
        lemma_no_sender_before_first_update(entries, n - 1, hide_names, parts);
    }
}

/// Output law: the block of an entry with a body names the sender of the
/// latest sender update at or before it (the name itself when names are
/// kept), then the entry's text; a media body reads `[MEDIA]`. An entry with
/// no sender update at or before it is shown as `[Unknown]`.
pub proof fn lemma_block_shows_latest_sender(
    entries: Seq<EntryView>,
    i: int,
    settings: AnonymizeSettings,
)
    requires
        0 <= i < entries.len(),
        entries[i].body is Some,
    ensures
        forall|k: int|
            #![trigger entries[k]]
            0 <= k <= i && entries[k].sender_update is Some && entries[k].sender_update->0.len() > 0
                && !settings.hide_names && (forall|j: int|
                k < j <= i ==> (#[trigger] entries[j]).sender_update is None) ==> exists|t: Seq<char>|
                entry_block(entries, i, settings) == Some(
                    "**"@ + entries[k].sender_update->0 + "**: "@ + t + "\n\n"@,
                ),
        (forall|j: int| 0 <= j <= i ==> (#[trigger] entries[j]).sender_update is None)
            ==> exists|t: Seq<char>|
            entry_block(entries, i, settings) == Some("**"@ + "[Unknown]"@ + "**: "@ + t + "\n\n"@),
        entries[i].body matches Some(BodyView::Media) ==> exists|s: Seq<char>|
            entry_block(entries, i, settings) == Some("**"@ + s + "**: "@ + "[MEDIA]"@ + "\n\n"@),
        (entries[i].body matches Some(BodyView::Text(raw)) && !settings.hide_names
            && !settings.hide_phones && !settings.hide_emails && !settings.hide_links
            && !settings.hide_cards && !settings.hide_addresses && !settings.hide_tokens)
            ==> exists|s: Seq<char>|
            entry_block(entries, i, settings) == Some(
                "**"@ + s + "**: "@ + entries[i].body->Some_0->Text_0 + "\n\n"@,
            ),
{
    let parts = participants_spec(entries, settings.hide_names);
    assert forall|k: int|
        #![trigger entries[k]]
        0 <= k <= i && entries[k].sender_update is Some && entries[k].sender_update->0.len() > 0
            && !settings.hide_names && (forall|j: int|
            k < j <= i ==> (#[trigger] entries[j]).sender_update is None) implies exists|t: Seq<char>|
        entry_block(entries, i, settings) == Some(
            "**"@ + entries[k].sender_update->0 + "**: "@ + t + "\n\n"@,
        ) by {
        lemma_sender_is_latest_update(entries, i + 1, k, settings.hide_names, parts);
        let b = entry_block(entries, i, settings)->0;
        match entries[i].body {
            Some(BodyView::Text(raw)) => {
                let t = redact_text(
                    raw,
                    settings,
                    names_pattern_spec(parts, settings.hide_names),
                    lower_map(parts),
                );
                assert(entry_block(entries, i, settings) == Some(
                    "**"@ + entries[k].sender_update->0 + "**: "@ + t + "\n\n"@,
                ));
            },
            _ => {
                assert(entry_block(entries, i, settings) == Some(
                    "**"@ + entries[k].sender_update->0 + "**: "@ + "[MEDIA]"@ + "\n\n"@,
                ));
            },
        }
    }
    if forall|j: int| 0 <= j <= i ==> (#[trigger] entries[j]).sender_update is None {
        lemma_no_sender_before_first_update(entries, i + 1, settings.hide_names, parts);
        match entries[i].body {
            Some(BodyView::Text(raw)) => {
                let t = redact_text(
                    raw,
                    settings,
                    names_pattern_spec(parts, settings.hide_names),
                    lower_map(parts),
                );
                assert(entry_block(entries, i, settings) == Some(
                    "**"@ + "[Unknown]"@ + "**: "@ + t + "\n\n"@,
                ));
            },
            _ => {
                assert(entry_block(entries, i, settings) == Some(
                    "**"@ + "[Unknown]"@ + "**: "@ + "[MEDIA]"@ + "\n\n"@,
                ));
            },
        }
    }
    if let Some(BodyView::Text(raw)) = entries[i].body {
        let sender = current_sender(entries, i + 1, settings.hide_names, parts);
        let s = if sender.len() == 0 {
            "[Unknown]"@
        } else {
            sender
        };
        if !settings.hide_names && !settings.hide_phones && !settings.hide_emails
            && !settings.hide_links && !settings.hide_cards && !settings.hide_addresses
            && !settings.hide_tokens {
            crate::redact::lemma_nothing_enabled_keeps_text(
                raw,
                settings,
                names_pattern_spec(parts, settings.hide_names),
                lower_map(parts),
            );
            assert(entry_block(entries, i, settings) == Some(
                "**"@ + s + "**: "@ + raw + "\n\n"@,
            ));
        }
    }
    if entries[i].body matches Some(BodyView::Media) {
        let sender = current_sender(entries, i + 1, settings.hide_names, parts);
        let s = if sender.len() == 0 {
            "[Unknown]"@
        } else {
            sender
        };
        assert(entry_block(entries, i, settings) == Some(
            "**"@ + s + "**: "@ + "[MEDIA]"@ + "\n\n"@,
        ));
    }
}

/// The result of anonymizing a chat.
pub struct Anonymized {
    /// Each distinct sender with their placeholder (empty when names are kept).
    pub participants: Vec<Participant>,
    /// The combined pattern of participant names, when there is one.
    pub names_pattern: Option<String>,
    /// Whether that pattern compiles; names are left as they are when not.
    pub names_pattern_compiles: bool,
    /// Per entry, the output block, or `None` for an entry without a body.
    pub blocks: Vec<Option<String>>,
}

pub open spec fn opt_string_view(o: Option<String>) -> Option<Seq<char>> {
    match o {
        Some(s) => Some(s@),
        None => None,
    }
}

/// Anonymizes the entries of a whole chat: assigns participant placeholders,
/// redacts every message text and lays each message out as an output block,
/// carrying the current sender forward from entry to entry.
pub fn anonymize_entries(entries: &Vec<RawEntry>, settings: &AnonymizeSettings) -> (res:
    Anonymized)
    ensures
        participants_view(res.participants@) == participants_spec(
            entries_view(entries@),
            settings.hide_names,
        ),
        match res.names_pattern {
            Some(p) => names_pattern_spec(
                participants_view(res.participants@),
                settings.hide_names,
            ) == Some(p@),
            None => names_pattern_spec(
                participants_view(res.participants@),
                settings.hide_names,
            ) is None,
        },
        res.names_pattern_compiles == (res.names_pattern matches Some(p) && regex_compiles(p@)),
        res.blocks.len() == entries.len(),
        forall|i: int|
            0 <= i < entries.len() ==> match #[trigger] res.blocks[i] {
                Some(b) => entry_block(entries_view(entries@), i, *settings) == Some(b@),
                None => entry_block(entries_view(entries@), i, *settings) is None,
            },
{
    let ghost ev = entries_view(entries@);
    let participants = assign_participants(entries, settings.hide_names);
    let ghost parts = participants_view(participants@);
    let names_pattern: Option<String> = if settings.hide_names && participants.len() > 0 {
        Some(build_names_pattern(&participants))
    } else {
        None
    };
    let names_pattern_compiles = match &names_pattern {
        Some(p) => pattern_compiles(p.as_str()),
        None => false,
    };
    let lower = build_lower_map(&participants);
    let exact = build_exact_map(&participants);
    // One text per entry, empty where the entry has no text.
    let mut texts: Vec<String> = Vec::new();
    let mut i: usize = 0;
    while i < entries.len()
        invariant
            i <= entries.len(),
            ev == entries_view(entries@),
            texts.len() == i,
            forall|k: int|
                0 <= k < i ==> match ev[k].body {
                    Some(BodyView::Text(raw)) => (#[trigger] texts[k])@ == raw,
                    _ => true,
                },
        decreases entries.len() - i,
    {
        let t = match &entries[i].body {
            Some(MessageBody::Text(raw)) => raw.clone(),
            _ => String::new(),
        };
        texts.push(t);
        i = i + 1;
    }
    let ghost np = opt_string_view(names_pattern);
    let redacted = redact_all(texts, settings, &names_pattern, &lower);
    let mut blocks: Vec<Option<String>> = Vec::new();
    let mut current = String::new();
    let mut j: usize = 0;
    while j < entries.len()
        invariant
            j <= entries.len(),
            ev == entries_view(entries@),
            parts == participants_view(participants@),
            parts == participants_spec(ev, settings.hide_names),
            pairs_view(exact@) == parts,
            pairs_view(lower@) == lower_map(parts),
            np == names_pattern_spec(parts, settings.hide_names),
            redacted.len() == entries.len(),
            forall|k: int|
                0 <= k < entries.len() ==> match ev[k].body {
                    Some(BodyView::Text(raw)) => (#[trigger] redacted[k])@ == redact_text(
                        raw,
                        *settings,
                        np,
                        lower_map(parts),
                    ),
                    _ => true,
                },
            current@ == current_sender(ev, j as int, settings.hide_names, parts),
            blocks.len() == j,
            forall|k: int|
                0 <= k < j ==> match #[trigger] blocks[k] {
                    Some(b) => entry_block(ev, k, *settings) == Some(b@),
                    None => entry_block(ev, k, *settings) is None,
                },
        decreases entries.len() - j,
    {
        match &entries[j].sender_update {
            Some(name) => {
                if settings.hide_names {
                    current = match crate::redact::find_placeholder(&exact, name) {
                        Some(ph) => ph,
                        None => name.clone(),
                    };
                } else {
                    current = name.clone();
                }
            },
            None => {},
        }
        let b: Option<String> = match &entries[j].body {
            Some(body) => {
                let mut out = String::from_str("**");
                if current.as_str().is_empty() {
                    out.append("[Unknown]");
                } else {
                    out.append(current.as_str());
                }
                out.append("**: ");
                match body {
                    MessageBody::Text(_) => {
                        out.append(redacted[j].as_str());
                    },
                    MessageBody::Media => {
                        out.append("[MEDIA]");
                    },
                }
                out.append("\n\n");
                Some(out)
            },
            None => None,
        };
        blocks.push(b);
        j = j + 1;
    }
    Anonymized { participants, names_pattern, names_pattern_compiles, blocks }
}

} // verus!
