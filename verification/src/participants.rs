use vstd::prelude::*;

use crate::entries::{entries_view, EntryView, RawEntry};
use crate::order::{lemma_stable_order_sorts, stable_order, stable_order_spec};
use crate::patterns::{escape_literal, escaped, lowercase, strings_view, to_lowercase};
use crate::redact::{join, pairs_view, str_len};
use crate::text::{decimal, push_decimal};

verus! {

/// A sender of the chat and the placeholder that stands for them.
pub struct Participant {
    pub name: String,
    pub placeholder: String,
}

pub open spec fn participants_view(p: Seq<Participant>) -> Seq<(Seq<char>, Seq<char>)> {
    p.map_values(|x: Participant| (x.name@, x.placeholder@))
}

/// The distinct sender names of `entries`, in order of first appearance.
pub open spec fn unique_senders(entries: Seq<EntryView>) -> Seq<Seq<char>>
    decreases entries.len(),
{
    if entries.len() == 0 {
        seq![]
    } else {
        let prev = unique_senders(entries.drop_last());
        match entries.last().sender_update {
            Some(s) => if prev.contains(s) {
                prev
            } else {
                prev.push(s)
            },
            None => prev,
        }
    }
}

/// The sort key of a name: its length in bytes.
pub open spec fn name_key(name: Seq<char>) -> u64 {
    str_len(name) as u64
}

pub open spec fn name_keys(names: Seq<Seq<char>>) -> Seq<u64> {
    names.map_values(|n: Seq<char>| name_key(n))
}

/// The distinct sender names, longest first (so that a name is matched before
/// a shorter name it contains), names of equal length in order of first
/// appearance.
pub open spec fn participant_names(entries: Seq<EntryView>) -> Seq<Seq<char>> {
    let u = unique_senders(entries);
    stable_order_spec(name_keys(u), u.len(), true).map_values(|i: usize| u[i as int])
}

/// The placeholder of the `k`-th participant: `[Participant k]`.
pub open spec fn placeholder(k: nat) -> Seq<char> {
    "[Participant "@ + decimal(k) + "]"@
}

/// The participants of a chat: nobody when names are not hidden, otherwise
/// each distinct sender with placeholder number `i + 1` at position `i` of
/// `participant_names`.
pub open spec fn participants_spec(entries: Seq<EntryView>, hide_names: bool) -> Seq<
    (Seq<char>, Seq<char>),
> {
    if hide_names {
        let names = participant_names(entries);
        Seq::new(names.len(), |i: int| (names[i], placeholder((i + 1) as nat)))
    } else {
        seq![]
    }
}

/// The combined pattern that matches any participant name, case-insensitively
/// and as a whole word: `(?i)\b(name1|name2|...)\b` with each name escaped.
pub open spec fn names_pattern(names: Seq<Seq<char>>) -> Seq<char> {
    "(?i)\\b("@ + join(names.map_values(|n: Seq<char>| escaped(n)), "|"@) + ")\\b"@
}

/// Each participant's name in lower case with their placeholder.
pub open spec fn lower_map(parts: Seq<(Seq<char>, Seq<char>)>) -> Seq<(Seq<char>, Seq<char>)> {
    parts.map_values(|p: (Seq<char>, Seq<char>)| (lowercase(p.0), p.1))
}

proof fn lemma_unique_senders(entries: Seq<EntryView>)
    ensures
        unique_senders(entries).no_duplicates(),
        unique_senders(entries).len() <= entries.len(),
        forall|k: int|
            0 <= k < entries.len() && (#[trigger] entries[k]).sender_update is Some
                ==> unique_senders(entries).contains(entries[k].sender_update->0),
        forall|x: Seq<char>|
            #[trigger] unique_senders(entries).contains(x) ==> exists|k: int|
                0 <= k < entries.len() && (#[trigger] entries[k]).sender_update == Some(x),
    decreases entries.len(),
{
    if entries.len() > 0 {
        let prev = unique_senders(entries.drop_last());
        lemma_unique_senders(entries.drop_last());
        let u = unique_senders(entries);
        assert forall|k: int|
            0 <= k < entries.len() && (#[trigger] entries[k]).sender_update is Some implies u.contains(
            entries[k].sender_update->0,
        ) by {
            if k < entries.len() - 1 {
                assert(entries.drop_last()[k] == entries[k]);
                let x = entries[k].sender_update->0;
                assert(prev.contains(x));
                let q = choose|q: int| 0 <= q < prev.len() && prev[q] == x;
                assert(u[q] == x);
            } else {
                let x = entries[k].sender_update->0;
                if prev.contains(x) {
                    let q = choose|q: int| 0 <= q < prev.len() && prev[q] == x;
                    assert(u[q] == x);
                } else {
                    assert(u[prev.len() as int] == x);
                }
            }
        }
        assert forall|x: Seq<char>| #[trigger] u.contains(x) implies exists|k: int|
            0 <= k < entries.len() && (#[trigger] entries[k]).sender_update == Some(x) by {
            let q = choose|q: int| 0 <= q < u.len() && u[q] == x;
            if q < prev.len() {
                assert(prev.contains(x));
                let k = choose|k: int|
                    0 <= k < entries.drop_last().len() && (#[trigger] entries.drop_last()[k]).sender_update
                        == Some(x);
                assert(entries[k] == entries.drop_last()[k]);
            } else {
                assert(entries[entries.len() - 1].sender_update == Some(x));
            }
        }
    }
}

/// Placeholder law: distinct participant numbers give distinct placeholders.
pub proof fn lemma_placeholder_injective(a: nat, b: nat)
    requires
        placeholder(a) == placeholder(b),
    ensures
        a == b,
{
    let p = "[Participant "@;
    let da = decimal(a);
    let db = decimal(b);
    assert(placeholder(a).len() == p.len() + da.len() + "]"@.len());
    assert(placeholder(b).len() == p.len() + db.len() + "]"@.len());
    assert(placeholder(a).subrange(p.len() as int, (p.len() + da.len()) as int) =~= da);
    assert(placeholder(b).subrange(p.len() as int, (p.len() + db.len()) as int) =~= db);
    crate::text::lemma_decimal_injective(a, b);
}

/// Participant law: with names hidden, each distinct sender of the chat gets
/// exactly one participant, every participant is a sender of the chat, the
/// `i`-th participant's placeholder is `[Participant i+1]`, no two
/// participants share a name or a placeholder, and longer names (in bytes)
/// come first.
pub proof fn lemma_participants(entries: Seq<EntryView>)
    requires
        entries.len() <= usize::MAX,
    ensures
        ({
            let parts = participants_spec(entries, true);
            &&& forall|i: int|
                0 <= i < parts.len() ==> (#[trigger] parts[i]).1 == placeholder((i + 1) as nat)
            &&& forall|i: int, j: int|
                0 <= i < parts.len() && 0 <= j < parts.len() && i != j ==> (#[trigger] parts[i]).0
                    != (#[trigger] parts[j]).0 && parts[i].1 != parts[j].1
            &&& forall|k: int|
                0 <= k < entries.len() && (#[trigger] entries[k]).sender_update is Some
                    ==> exists|i: int|
                    0 <= i < parts.len() && (#[trigger] parts[i]).0 == entries[k].sender_update->0
            &&& forall|i: int|
                0 <= i < parts.len() ==> exists|k: int|
                    0 <= k < entries.len() && (#[trigger] entries[k]).sender_update == Some(
                        (#[trigger] parts[i]).0,
                    )
            &&& forall|i: int, j: int|
                0 <= i < j < parts.len() ==> name_key((#[trigger] parts[i]).0) >= name_key(
                    (#[trigger] parts[j]).0,
                )
        }),
{
    let parts = participants_spec(entries, true);
    let u = unique_senders(entries);
    lemma_unique_senders(entries);
    let keys = name_keys(u);
    lemma_stable_order_sorts(keys, u.len(), true);
    let o = stable_order_spec(keys, u.len(), true);
    let names = participant_names(entries);
    assert(names == o.map_values(|i: usize| u[i as int]));
    assert forall|i: int, j: int|
        0 <= i < parts.len() && 0 <= j < parts.len() && i != j implies (#[trigger] parts[i]).0
        != (#[trigger] parts[j]).0 && parts[i].1 != parts[j].1 by {
        assert(o[i] != o[j]);
        assert(u[o[i] as int] != u[o[j] as int]);
        if parts[i].1 == parts[j].1 {
            lemma_placeholder_injective((i + 1) as nat, (j + 1) as nat);
        }
    }
    assert forall|k: int|
        0 <= k < entries.len() && (#[trigger] entries[k]).sender_update is Some implies exists|i: int|
        0 <= i < parts.len() && (#[trigger] parts[i]).0 == entries[k].sender_update->0 by {
        let x = entries[k].sender_update->0;
        assert(u.contains(x));
        let m = choose|m: int| 0 <= m < u.len() && u[m] == x;
        assert(o.contains(m as usize));
        let p = choose|p: int| 0 <= p < o.len() && o[p] == m as usize;
        assert(parts[p].0 == x);
    }
    assert forall|i: int| 0 <= i < parts.len() implies exists|k: int|
        0 <= k < entries.len() && (#[trigger] entries[k]).sender_update == Some(
            (#[trigger] parts[i]).0,
        ) by {
        assert(u.contains(u[o[i] as int]));
    }
    assert forall|i: int, j: int| 0 <= i < j < parts.len() implies name_key(
        (#[trigger] parts[i]).0,
    ) >= name_key((#[trigger] parts[j]).0) by {
        assert(!crate::order::goes_before(keys[o[j] as int], keys[o[i] as int], true));
    }
}

fn contains_string(v: &Vec<String>, s: &String) -> (res: bool)
    ensures
        res == strings_view(v@).contains(s@),
{
    let mut i: usize = 0;
    while i < v.len()
        invariant
            i <= v.len(),
            forall|k: int| 0 <= k < i ==> v@[k]@ != s@,
        decreases v.len() - i,
    {
        if v[i] == *s {
            assert(strings_view(v@)[i as int] == s@);
            return true;
        }
        i = i + 1;
    }
    assert(!strings_view(v@).contains(s@)) by {
        if strings_view(v@).contains(s@) {
            let k = choose|k: int| 0 <= k < v@.len() && strings_view(v@)[k] == s@;
            assert(v@[k]@ == s@);
        }
    }
    false
}

/// The distinct sender names of `entries`, in order of first appearance.
pub fn collect_senders(entries: &Vec<RawEntry>) -> (res: Vec<String>)
    ensures
        strings_view(res@) == unique_senders(entries_view(entries@)),
{
    let ghost ev = entries_view(entries@);
    let mut res: Vec<String> = Vec::new();
    let mut i: usize = 0;
    while i < entries.len()
        invariant
            i <= entries.len(),
            ev == entries_view(entries@),
            strings_view(res@) == unique_senders(ev.take(i as int)),
        decreases entries.len() - i,
    {
        assert(ev.take((i + 1) as int).drop_last() =~= ev.take(i as int));
        match &entries[i].sender_update {
            Some(s) => {
                if !contains_string(&res, s) {
                    res.push(s.clone());
                    assert(strings_view(res@) =~= unique_senders(ev.take(i as int)).push(s@));
                }
            },
            None => {},
        }
        i = i + 1;
    }
    assert(ev.take(entries.len() as int) =~= ev);
    res
}

/// `[Participant k]`.
fn placeholder_string(k: u64) -> (res: String)
    ensures
        res@ == placeholder(k as nat),
{
    let mut s = String::from_str("[Participant ");
    push_decimal(&mut s, k);
    s.append("]");
    s
}

/// Assigns placeholders `[Participant 1]`, `[Participant 2]`, ... to the
/// distinct senders, longest name first; nobody when names are not hidden.
pub fn assign_participants(entries: &Vec<RawEntry>, hide_names: bool) -> (res: Vec<Participant>)
    ensures
        participants_view(res@) == participants_spec(entries_view(entries@), hide_names),
{
    let mut res: Vec<Participant> = Vec::new();
    if !hide_names {
        assert(participants_view(res@) =~= Seq::<(Seq<char>, Seq<char>)>::empty());
        return res;
    }
    let senders = collect_senders(entries);
    let ghost u = strings_view(senders@);
    let mut keys: Vec<u64> = Vec::new();
    let mut i: usize = 0;
    while i < senders.len()
        invariant
            i <= senders.len(),
            u == strings_view(senders@),
            keys@ =~= name_keys(u).take(i as int),
        decreases senders.len() - i,
    {
        keys.push(senders[i].as_str().len() as u64);
        i = i + 1;
    }
    assert(name_keys(u).take(senders.len() as int) =~= name_keys(u));
    let order = stable_order(&keys, true);
    proof {
        lemma_stable_order_sorts(name_keys(u), u.len(), true);
    }
    let ghost names = participant_names(entries_view(entries@));
    assert(names =~= order@.map_values(|k: usize| u[k as int]));
    let mut j: usize = 0;
    while j < order.len()
        invariant
            j <= order.len() == senders.len(),
            u == strings_view(senders@),
            names == order@.map_values(|k: usize| u[k as int]),
            forall|q: int| 0 <= q < order.len() ==> (#[trigger] order@[q]) < senders.len(),
            participants_view(res@) =~= Seq::new(
                j as nat,
                |q: int| (names[q], placeholder((q + 1) as nat)),
            ),
        decreases order.len() - j,
    {
        let name = senders[order[j]].clone();
        let ph = placeholder_string((j + 1) as u64);
        let ghost prev = participants_view(res@);
        assert(name@ == names[j as int]);
        res.push(Participant { name, placeholder: ph });
        assert(participants_view(res@) =~= prev.push((names[j as int], placeholder((j + 1) as nat))));
        j = j + 1;
    }
    res
}

/// The combined pattern for the names of `participants`, in their order.
pub fn build_names_pattern(participants: &Vec<Participant>) -> (res: String)
    ensures
        res@ == names_pattern(participants_view(participants@).map_values(
            |p: (Seq<char>, Seq<char>)| p.0,
        )),
{
    let ghost names = participants_view(participants@).map_values(|p: (Seq<char>, Seq<char>)| p.0);
    let ghost esc = names.map_values(|n: Seq<char>| escaped(n));
    let mut body = String::new();
    let mut i: usize = 0;
    while i < participants.len()
        invariant
            i <= participants.len(),
            names == participants_view(participants@).map_values(
                |p: (Seq<char>, Seq<char>)| p.0,
            ),
            esc == names.map_values(|n: Seq<char>| escaped(n)),
            body@ == join(esc.take(i as int), "|"@),
        decreases participants.len() - i,
    {
        assert(esc.take((i + 1) as int).drop_last() =~= esc.take(i as int));
        if i > 0 {
            body.append("|");
        }
        let e = escape_literal(participants[i].name.as_str());
        body.append(e.as_str());
        i = i + 1;
    }
    assert(esc.take(participants.len() as int) =~= esc);
    let mut res = String::from_str("(?i)\\b(");
    res.append(body.as_str());
    res.append(")\\b");
    res
}

/// Each participant's name in lower case with their placeholder.
pub fn build_lower_map(participants: &Vec<Participant>) -> (res: Vec<(String, String)>)
    ensures
        pairs_view(res@) == lower_map(participants_view(participants@)),
{
    let mut res: Vec<(String, String)> = Vec::new();
    let mut i: usize = 0;
    while i < participants.len()
        invariant
            i <= participants.len(),
            pairs_view(res@) =~= lower_map(participants_view(participants@)).take(i as int),
        decreases participants.len() - i,
    {
        let key = to_lowercase(participants[i].name.as_str());
        let ghost prev = pairs_view(res@);
        let ph = participants[i].placeholder.clone();
        let ghost item = (key@, ph@);
        res.push((key, ph));
        assert(pairs_view(res@) =~= prev.push(item));
        assert(lower_map(participants_view(participants@)).take((i + 1) as int) =~= lower_map(
            participants_view(participants@),
        ).take(i as int).push(item));
        i = i + 1;
    }
    assert(lower_map(participants_view(participants@)).take(participants.len() as int)
        =~= lower_map(participants_view(participants@)));
    res
}

/// Each participant's name with their placeholder.
pub fn build_exact_map(participants: &Vec<Participant>) -> (res: Vec<(String, String)>)
    ensures
        pairs_view(res@) == participants_view(participants@),
{
    let mut res: Vec<(String, String)> = Vec::new();
    let mut i: usize = 0;
    while i < participants.len()
        invariant
            i <= participants.len(),
            pairs_view(res@) =~= participants_view(participants@).take(i as int),
        decreases participants.len() - i,
    {
        let ghost prev = pairs_view(res@);
        let n = participants[i].name.clone();
        let ph = participants[i].placeholder.clone();
        let ghost item = (n@, ph@);
        res.push((n, ph));
        assert(pairs_view(res@) =~= prev.push(item));
        assert(participants_view(participants@).take((i + 1) as int) =~= participants_view(
            participants@,
        ).take(i as int).push(item));
        i = i + 1;
    }
    assert(participants_view(participants@).take(participants.len() as int) =~= participants_view(
        participants@,
    ));
    res
}

} // verus!
