use vstd::prelude::*;

use crate::patterns::{
    captures_each, groups_view, lowercase, matches_view, regex_captures, regex_compiles,
    regex_split, split_each, strings_view, to_lowercase, ADDRESS_PATTERN, ALNUM_TOKEN_PATTERN,
    API_KEY_PATTERN, BEARER_PATTERN, BOT_TOKEN_PATTERN, CARD_PATTERN, EMAIL_PATTERN,
    HEX_TOKEN_PATTERN, LINK_PATTERN, PHONE_PATTERN, SHORT_ADDRESS_PATTERN,
};
use crate::settings::AnonymizeSettings;
use crate::text::{chars_of, is_ascii_digit, is_ascii_lower, is_ascii_upper, push_chars};

verus! {

/// The pieces joined with `sep` between each two.
pub open spec fn join(pieces: Seq<Seq<char>>, sep: Seq<char>) -> Seq<char>
    decreases pieces.len(),
{
    if pieces.len() == 0 {
        seq![]
    } else if pieces.len() == 1 {
        pieces[0]
    } else {
        join(pieces.drop_last(), sep) + sep + pieces.last()
    }
}

/// The `k`-th replacement, or nothing when there is none.
pub open spec fn replacement_at(reps: Seq<Seq<char>>, k: int) -> Seq<char> {
    if 0 <= k < reps.len() {
        reps[k]
    } else {
        seq![]
    }
}

/// The pieces with the `k`-th replacement between piece `k` and piece `k + 1`.
pub open spec fn interleave(pieces: Seq<Seq<char>>, reps: Seq<Seq<char>>) -> Seq<char>
    decreases pieces.len(),
{
    if pieces.len() == 0 {
        seq![]
    } else if pieces.len() == 1 {
        pieces[0]
    } else {
        interleave(pieces.drop_last(), reps) + replacement_at(reps, pieces.len() - 2)
            + pieces.last()
    }
}

/// Every match of `pattern` in `t` replaced by `rep` (`t` itself when the
/// pattern does not compile).
pub open spec fn literal_step(pattern: Seq<char>, t: Seq<char>, rep: Seq<char>) -> Seq<char> {
    if regex_compiles(pattern) {
        join(regex_split(pattern, t), rep)
    } else {
        t
    }
}

/// How a match is rewritten by a rule that inspects it.
#[derive(Clone, Copy)]
pub enum MatchRule {
    /// A long alphanumeric word, masked only when it looks like a secret.
    Token,
    /// A phone number with its boundary characters, which are kept.
    Phone,
    /// A participant name, replaced by its placeholder.
    Name,
}

pub open spec fn group_text(g: Seq<Option<Seq<char>>>, k: int) -> Option<Seq<char>> {
    if 0 <= k < g.len() {
        g[k]
    } else {
        None
    }
}

/// The text of the whole match.
pub open spec fn whole_match(g: Seq<Option<Seq<char>>>) -> Seq<char> {
    match group_text(g, 0) {
        Some(s) => s,
        None => seq![],
    }
}

/// The length in bytes that `str::len` reports for a string with characters `s`.
pub open spec fn str_len(s: Seq<char>) -> usize {
    vstd::utf8::encode_utf8(s).len() as usize
}

pub open spec fn has_ascii_digit(s: Seq<char>) -> bool {
    exists|i: int| 0 <= i < s.len() && is_ascii_digit(#[trigger] s[i])
}

pub open spec fn has_ascii_upper(s: Seq<char>) -> bool {
    exists|i: int| 0 <= i < s.len() && is_ascii_upper(#[trigger] s[i])
}

pub open spec fn has_ascii_lower(s: Seq<char>) -> bool {
    exists|i: int| 0 <= i < s.len() && is_ascii_lower(#[trigger] s[i])
}

/// Whether an alphanumeric word is taken as a secret: at least 24 bytes long,
/// with a digit, an upper-case and a lower-case ASCII letter.
pub open spec fn looks_like_token(m: Seq<char>) -> bool {
    str_len(m) >= 24 && has_ascii_digit(m) && has_ascii_upper(m) && has_ascii_lower(m)
}

pub open spec fn token_replacement(g: Seq<Option<Seq<char>>>) -> Seq<char> {
    if looks_like_token(whole_match(g)) {
        "[TOKEN]"@
    } else {
        whole_match(g)
    }
}

/// Whether `n` occurs in `h` at position `i`.
pub open spec fn occurs_at(h: Seq<char>, n: Seq<char>, i: int) -> bool {
    0 <= i && i + n.len() <= h.len() && h.subrange(i, i + n.len()) == n
}

pub open spec fn is_first_occurrence(h: Seq<char>, n: Seq<char>, i: int) -> bool {
    occurs_at(h, n, i) && forall|j: int| 0 <= j < i ==> !occurs_at(h, n, j)
}

/// The position of the first occurrence of `n` in `h`, as `str::find` gives it
/// (counted in characters).
pub open spec fn first_occurrence(h: Seq<char>, n: Seq<char>) -> Option<int> {
    if exists|i: int| is_first_occurrence(h, n, i) {
        Some(choose|i: int| is_first_occurrence(h, n, i))
    } else {
        None
    }
}

/// The phone number (group 1) inside the match is replaced by `[PHONE]`; the
/// boundary characters before and after it stay.
pub open spec fn phone_replacement(g: Seq<Option<Seq<char>>>) -> Seq<char> {
    let full = whole_match(g);
    match group_text(g, 1) {
        Some(p) => match first_occurrence(full, p) {
            Some(i) => full.take(i) + "[PHONE]"@ + full.skip(i + p.len()),
            None => full,
        },
        None => full,
    }
}

/// The placeholder stored last for `key`.
pub open spec fn lookup_last(map: Seq<(Seq<char>, Seq<char>)>, key: Seq<char>) -> Option<
    Seq<char>,
>
    decreases map.len(),
{
    if map.len() == 0 {
        None
    } else if map.last().0 == key {
        Some(map.last().1)
    } else {
        lookup_last(map.drop_last(), key)
    }
}

/// A matched name (group 1) is replaced by the placeholder stored for its
/// lower-case form, or kept when none is stored.
pub open spec fn name_replacement(
    g: Seq<Option<Seq<char>>>,
    map: Seq<(Seq<char>, Seq<char>)>,
) -> Seq<char> {
    match group_text(g, 1) {
        Some(m) => match lookup_last(map, lowercase(m)) {
            Some(ph) => ph,
            None => m,
        },
        None => whole_match(g),
    }
}

pub open spec fn rule_replacement(
    rule: MatchRule,
    g: Seq<Option<Seq<char>>>,
    map: Seq<(Seq<char>, Seq<char>)>,
) -> Seq<char> {
    match rule {
        MatchRule::Token => token_replacement(g),
        MatchRule::Phone => phone_replacement(g),
        MatchRule::Name => name_replacement(g, map),
    }
}

/// Every match of `pattern` in `t` rewritten by `rule` (`t` itself when the
/// pattern does not compile).
pub open spec fn rule_step(
    pattern: Seq<char>,
    t: Seq<char>,
    rule: MatchRule,
    map: Seq<(Seq<char>, Seq<char>)>,
) -> Seq<char> {
    if regex_compiles(pattern) {
        interleave(
            regex_split(pattern, t),
            regex_captures(pattern, t).map_values(
                |g: Seq<Option<Seq<char>>>| rule_replacement(rule, g, map),
            ),
        )
    } else {
        t
    }
}

/// The token rules: bot tokens, bearer tokens, API keys and long hex strings
/// become `[TOKEN]`, then long alphanumeric words that look like secrets.
pub open spec fn tokens_step(t: Seq<char>) -> Seq<char> {
    let t = literal_step(BOT_TOKEN_PATTERN@, t, "[TOKEN]"@);
    let t = literal_step(BEARER_PATTERN@, t, "[TOKEN]"@);
    let t = literal_step(API_KEY_PATTERN@, t, "[TOKEN]"@);
    let t = literal_step(HEX_TOKEN_PATTERN@, t, "[TOKEN]"@);
    rule_step(ALNUM_TOKEN_PATTERN@, t, MatchRule::Token, seq![])
}

/// The address rules: street addresses, then house and flat numbers.
pub open spec fn addresses_step(t: Seq<char>) -> Seq<char> {
    let t = literal_step(ADDRESS_PATTERN@, t, "[ADDRESS]"@);
    literal_step(SHORT_ADDRESS_PATTERN@, t, "[ADDRESS]"@)
}

/// One message after all enabled redactions, in this order: links, e-mails,
/// tokens, cards, phones, addresses, names. `names` is the combined pattern
/// of participant names and `map` pairs each lower-case name with its
/// placeholder.
pub open spec fn redact_text(
    t: Seq<char>,
    settings: AnonymizeSettings,
    names: Option<Seq<char>>,
    map: Seq<(Seq<char>, Seq<char>)>,
) -> Seq<char> {
    let t = if settings.hide_links {
        literal_step(LINK_PATTERN@, t, "[LINK]"@)
    } else {
        t
    };
    let t = if settings.hide_emails {
        literal_step(EMAIL_PATTERN@, t, "[EMAIL]"@)
    } else {
        t
    };
    let t = if settings.hide_tokens {
        tokens_step(t)
    } else {
        t
    };
    let t = if settings.hide_cards {
        literal_step(CARD_PATTERN@, t, "[CARD]"@)
    } else {
        t
    };
    let t = if settings.hide_phones {
        rule_step(PHONE_PATTERN@, t, MatchRule::Phone, map)
    } else {
        t
    };
    let t = if settings.hide_addresses {
        addresses_step(t)
    } else {
        t
    };
    match names {
        Some(p) => if settings.hide_names {
            rule_step(p, t, MatchRule::Name, map)
        } else {
            t
        },
        None => t,
    }
}

/// Lookup law: when some pair has `key` as its key, the lookup finds the
/// value of such a pair.
pub proof fn lemma_lookup_last_finds(map: Seq<(Seq<char>, Seq<char>)>, key: Seq<char>)
    requires
        exists|i: int| 0 <= i < map.len() && (#[trigger] map[i]).0 == key,
    ensures
        exists|q: int|
            0 <= q < map.len() && (#[trigger] map[q]).0 == key && lookup_last(map, key) == Some(
                map[q].1,
            ),
    decreases map.len(),
{
    if map.last().0 != key {
        let i = choose|i: int| 0 <= i < map.len() && (#[trigger] map[i]).0 == key;
        assert(map.drop_last()[i] == map[i]);
        lemma_lookup_last_finds(map.drop_last(), key);
        let q = choose|q: int|
            0 <= q < map.drop_last().len() && (#[trigger] map.drop_last()[q]).0 == key
                && lookup_last(map.drop_last(), key) == Some(map.drop_last()[q].1);
        assert(map[q] == map.drop_last()[q]);
    } else {
        assert(map[map.len() - 1].0 == key);
    }
}

/// Settings law: with every option switched off, a message comes out as it
/// went in.
pub proof fn lemma_nothing_enabled_keeps_text(
    t: Seq<char>,
    settings: AnonymizeSettings,
    names: Option<Seq<char>>,
    map: Seq<(Seq<char>, Seq<char>)>,
)
    requires
        !settings.hide_names,
        !settings.hide_phones,
        !settings.hide_emails,
        !settings.hide_links,
        !settings.hide_cards,
        !settings.hide_addresses,
        !settings.hide_tokens,
    ensures
        redact_text(t, settings, names, map) == t,
{
}

proof fn lemma_first_occurrence_exists(h: Seq<char>, n: Seq<char>, i: int)
    requires
        occurs_at(h, n, i),
    ensures
        exists|j: int| is_first_occurrence(h, n, j),
    decreases i,
{
    if exists|j: int| 0 <= j < i && occurs_at(h, n, j) {
        let j = choose|j: int| 0 <= j < i && occurs_at(h, n, j);
        lemma_first_occurrence_exists(h, n, j);
    } else {
        assert(is_first_occurrence(h, n, i));
    }
}

/// Phone law: when the number (group 1) lies inside the match, only that
/// number is replaced: the match reads `before + number + after` and its
/// replacement `before + [PHONE] + after`, so the boundary characters stay.
pub proof fn lemma_phone_keeps_boundaries(g: Seq<Option<Seq<char>>>, i: int)
    requires
        group_text(g, 1) is Some,
        occurs_at(whole_match(g), group_text(g, 1)->0, i),
    ensures
        exists|before: Seq<char>, after: Seq<char>|
            whole_match(g) == before + group_text(g, 1)->0 + after && phone_replacement(g)
                == before + "[PHONE]"@ + after,
{
    let full = whole_match(g);
    let p = group_text(g, 1)->0;
    lemma_first_occurrence_exists(full, p, i);
    let k = choose|k: int| is_first_occurrence(full, p, k);
    assert(first_occurrence(full, p) == Some(k));
    let before = full.take(k);
    let after = full.skip(k + p.len());
    assert(full =~= before + p + after);
    assert(phone_replacement(g) == before + "[PHONE]"@ + after);
}

/// Token law: a long alphanumeric word is masked only when it is at least 24
/// bytes long and mixes digits, upper-case and lower-case letters; any other
/// word is kept as it is.
pub proof fn lemma_token_rule(g: Seq<Option<Seq<char>>>)
    ensures
        looks_like_token(whole_match(g)) ==> token_replacement(g) == "[TOKEN]"@,
        !looks_like_token(whole_match(g)) ==> token_replacement(g) == whole_match(g),
        str_len(whole_match(g)) < 24 ==> token_replacement(g) == whole_match(g),
{
}

/// Token law: a matched alphanumeric word of at least 24 bytes (as
/// `str::len` counts them) that has an ASCII digit, an upper-case and a
/// lower-case ASCII letter is masked as `[TOKEN]`, however long it is; any
/// other word is kept as it is.
pub proof fn lemma_token_masking(g: Seq<Option<Seq<char>>>, m: Seq<char>)
    requires
        g.len() > 0,
        g[0] == Some(m),
    ensures
        (str_len(m) >= 24 && (exists|i: int| 0 <= i < m.len() && '0' <= #[trigger] m[i] <= '9')
            && (exists|i: int| 0 <= i < m.len() && 'A' <= #[trigger] m[i] <= 'Z') && (exists|i: int|
            0 <= i < m.len() && 'a' <= #[trigger] m[i] <= 'z')) ==> token_replacement(g)
            == "[TOKEN]"@,
        !(str_len(m) >= 24 && (exists|i: int| 0 <= i < m.len() && '0' <= #[trigger] m[i] <= '9')
            && (exists|i: int| 0 <= i < m.len() && 'A' <= #[trigger] m[i] <= 'Z') && (exists|i: int|
            0 <= i < m.len() && 'a' <= #[trigger] m[i] <= 'z')) ==> token_replacement(g) == m,
{
}

/// Option law: the link rule acts only through the links it finds; on a text
/// where it finds none, switching link hiding on or off changes nothing, so
/// every other rule (e-mails included) acts the same either way.
pub proof fn lemma_links_without_match_are_inert(
    t: Seq<char>,
    settings: AnonymizeSettings,
    names: Option<Seq<char>>,
    map: Seq<(Seq<char>, Seq<char>)>,
)
    requires
        literal_step(LINK_PATTERN@, t, "[LINK]"@) == t,
    ensures
        redact_text(t, settings, names, map) == redact_text(
            t,
            AnonymizeSettings {
                hide_names: settings.hide_names,
                hide_phones: settings.hide_phones,
                hide_emails: settings.hide_emails,
                hide_links: !settings.hide_links,
                hide_cards: settings.hide_cards,
                hide_addresses: settings.hide_addresses,
                hide_tokens: settings.hide_tokens,
            },
            names,
            map,
        ),
{
}

/// Whether option `k` is on, counting in the order the rules run: links,
/// e-mails, tokens, cards, phones, addresses, names.
pub open spec fn option_on(s: AnonymizeSettings, k: int) -> bool {
    if k == 0 {
        s.hide_links
    } else if k == 1 {
        s.hide_emails
    } else if k == 2 {
        s.hide_tokens
    } else if k == 3 {
        s.hide_cards
    } else if k == 4 {
        s.hide_phones
    } else if k == 5 {
        s.hide_addresses
    } else if k == 6 {
        s.hide_names
    } else {
        false
    }
}

/// The settings that keep option `j` exactly when `lo <= j < hi`.
pub open spec fn options_between(s: AnonymizeSettings, lo: int, hi: int) -> AnonymizeSettings {
    AnonymizeSettings {
        hide_links: lo <= 0 < hi && s.hide_links,
        hide_emails: lo <= 1 < hi && s.hide_emails,
        hide_tokens: lo <= 2 < hi && s.hide_tokens,
        hide_cards: lo <= 3 < hi && s.hide_cards,
        hide_phones: lo <= 4 < hi && s.hide_phones,
        hide_addresses: lo <= 5 < hi && s.hide_addresses,
        hide_names: lo <= 6 < hi && s.hide_names,
    }
}

/// The rule of option `k` on its own.
pub open spec fn option_rule(
    k: int,
    t: Seq<char>,
    names: Option<Seq<char>>,
    map: Seq<(Seq<char>, Seq<char>)>,
) -> Seq<char> {
    if k == 0 {
        literal_step(LINK_PATTERN@, t, "[LINK]"@)
    } else if k == 1 {
        literal_step(EMAIL_PATTERN@, t, "[EMAIL]"@)
    } else if k == 2 {
        rule_step(
            ALNUM_TOKEN_PATTERN@,
            literal_step(
                HEX_TOKEN_PATTERN@,
                literal_step(
                    API_KEY_PATTERN@,
                    literal_step(
                        BEARER_PATTERN@,
                        literal_step(BOT_TOKEN_PATTERN@, t, "[TOKEN]"@),
                        "[TOKEN]"@,
                    ),
                    "[TOKEN]"@,
                ),
                "[TOKEN]"@,
            ),
            MatchRule::Token,
            seq![],
        )
    } else if k == 3 {
        literal_step(CARD_PATTERN@, t, "[CARD]"@)
    } else if k == 4 {
        rule_step(PHONE_PATTERN@, t, MatchRule::Phone, map)
    } else if k == 5 {
        literal_step(SHORT_ADDRESS_PATTERN@, literal_step(ADDRESS_PATTERN@, t, "[ADDRESS]"@), "[ADDRESS]"@)
    } else {
        match names {
            Some(p) => rule_step(p, t, MatchRule::Name, map),
            None => t,
        }
    }
}

/// Option law: every option that is on applies its own rule, whatever the
/// other options are: redacting equals redacting with only the earlier
/// options, applying rule `k`, then redacting with only the later options.
pub proof fn lemma_option_applies_independently(
    t: Seq<char>,
    settings: AnonymizeSettings,
    names: Option<Seq<char>>,
    map: Seq<(Seq<char>, Seq<char>)>,
    k: int,
)
    requires
        0 <= k < 7,
        option_on(settings, k),
    ensures
        redact_text(t, settings, names, map) == redact_text(
            option_rule(k, redact_text(t, options_between(settings, 0, k), names, map), names, map),
            options_between(settings, k + 1, 7),
            names,
            map,
        ),
{
}

/// Option law: an option that is off leaves its rule out: redacting equals
/// redacting with only the earlier options, then with only the later ones.
pub proof fn lemma_option_off_is_skipped(
    t: Seq<char>,
    settings: AnonymizeSettings,
    names: Option<Seq<char>>,
    map: Seq<(Seq<char>, Seq<char>)>,
    k: int,
)
    requires
        0 <= k < 7,
        !option_on(settings, k),
    ensures
        redact_text(t, settings, names, map) == redact_text(
            redact_text(t, options_between(settings, 0, k), names, map),
            options_between(settings, k + 1, 7),
            names,
            map,
        ),
{
}

/// Option law: with e-mail hiding on, e-mails are masked whatever the other
/// options are: redacting equals first masking links (when on) and then
/// e-mails, and redacting the result with both options off.
pub proof fn lemma_emails_masked_whatever_else(
    t: Seq<char>,
    settings: AnonymizeSettings,
    names: Option<Seq<char>>,
    map: Seq<(Seq<char>, Seq<char>)>,
)
    requires
        settings.hide_emails,
    ensures
        redact_text(t, settings, names, map) == redact_text(
            literal_step(
                EMAIL_PATTERN@,
                if settings.hide_links {
                    literal_step(LINK_PATTERN@, t, "[LINK]"@)
                } else {
                    t
                },
                "[EMAIL]"@,
            ),
            AnonymizeSettings {
                hide_names: settings.hide_names,
                hide_phones: settings.hide_phones,
                hide_emails: false,
                hide_links: false,
                hide_cards: settings.hide_cards,
                hide_addresses: settings.hide_addresses,
                hide_tokens: settings.hide_tokens,
            },
            names,
            map,
        ),
{
}

/// Option law: each option on its own applies only its own rule.
pub proof fn lemma_single_options(
    t: Seq<char>,
    settings: AnonymizeSettings,
    names: Option<Seq<char>>,
    map: Seq<(Seq<char>, Seq<char>)>,
)
    ensures
        (settings.hide_links && !settings.hide_emails && !settings.hide_tokens && !settings.hide_cards
            && !settings.hide_phones && !settings.hide_addresses && !settings.hide_names)
            ==> redact_text(t, settings, names, map) == literal_step(LINK_PATTERN@, t, "[LINK]"@),
        (!settings.hide_links && settings.hide_emails && !settings.hide_tokens && !settings.hide_cards
            && !settings.hide_phones && !settings.hide_addresses && !settings.hide_names)
            ==> redact_text(t, settings, names, map) == literal_step(EMAIL_PATTERN@, t, "[EMAIL]"@),
        (!settings.hide_links && !settings.hide_emails && !settings.hide_tokens
            && settings.hide_cards && !settings.hide_phones && !settings.hide_addresses
            && !settings.hide_names) ==> redact_text(t, settings, names, map) == literal_step(
            CARD_PATTERN@,
            t,
            "[CARD]"@,
        ),
        (!settings.hide_links && !settings.hide_emails && !settings.hide_tokens
            && !settings.hide_cards && settings.hide_phones && !settings.hide_addresses
            && !settings.hide_names) ==> redact_text(t, settings, names, map) == rule_step(
            PHONE_PATTERN@,
            t,
            MatchRule::Phone,
            map,
        ),
{
}

pub open spec fn pairs_view(v: Seq<(String, String)>) -> Seq<(Seq<char>, Seq<char>)> {
    v.map_values(|p: (String, String)| (p.0@, p.1@))
}

/// The pieces joined with `sep`.
fn join_pieces(pieces: &Vec<String>, sep: &str) -> (res: String)
    ensures
        res@ == join(strings_view(pieces@), sep@),
{
    let ghost pv = strings_view(pieces@);
    let mut res = String::new();
    let mut i: usize = 0;
    while i < pieces.len()
        invariant
            i <= pieces.len(),
            pv == strings_view(pieces@),
            res@ == join(pv.take(i as int), sep@),
        decreases pieces.len() - i,
    {
        assert(pv.take((i + 1) as int).drop_last() =~= pv.take(i as int));
        if i > 0 {
            res.append(sep);
        }
        res.append(pieces[i].as_str());
        i = i + 1;
    }
    assert(pv.take(pieces.len() as int) =~= pv);
    res
}

/// The pieces with the replacements between them.
fn interleave_pieces(pieces: &Vec<String>, reps: &Vec<String>) -> (res: String)
    ensures
        res@ == interleave(strings_view(pieces@), strings_view(reps@)),
{
    let ghost pv = strings_view(pieces@);
    let ghost rv = strings_view(reps@);
    let mut res = String::new();
    let mut i: usize = 0;
    while i < pieces.len()
        invariant
            i <= pieces.len(),
            pv == strings_view(pieces@),
            rv == strings_view(reps@),
            res@ == interleave(pv.take(i as int), rv),
        decreases pieces.len() - i,
    {
        assert(pv.take((i + 1) as int).drop_last() =~= pv.take(i as int));
        if i > 0 && i - 1 < reps.len() {
            res.append(reps[i - 1].as_str());
        }
        res.append(pieces[i].as_str());
        i = i + 1;
    }
    assert(pv.take(pieces.len() as int) =~= pv);
    res
}

/// Each text with every match of `pattern` replaced by `rep`.
fn replace_literal_each(pattern: &str, texts: &Vec<String>, rep: &str) -> (res: Vec<String>)
    ensures
        res.len() == texts.len(),
        forall|i: int|
            0 <= i < texts.len() ==> (#[trigger] res[i])@ == literal_step(
                pattern@,
                texts[i]@,
                rep@,
            ),
{
    let split = split_each(pattern, texts);
    let mut res: Vec<String> = Vec::new();
    let mut i: usize = 0;
    while i < texts.len()
        invariant
            i <= texts.len(),
            res.len() == i,
            split is Some <==> regex_compiles(pattern@),
            split matches Some(all) ==> {
                &&& all.len() == texts.len()
                &&& forall|k: int|
                    0 <= k < texts.len() ==> strings_view(#[trigger] all[k]@) == regex_split(
                        pattern@,
                        texts[k]@,
                    )
            },
            forall|k: int|
                0 <= k < i ==> (#[trigger] res[k])@ == literal_step(pattern@, texts[k]@, rep@),
        decreases texts.len() - i,
    {
        let t = match &split {
            Some(all) => join_pieces(&all[i], rep),
            None => texts[i].clone(),
        };
        res.push(t);
        i = i + 1;
    }
    res
}

fn ascii_classes(cs: &Vec<char>) -> (res: (bool, bool, bool))
    ensures
        res.0 == has_ascii_digit(cs@),
        res.1 == has_ascii_upper(cs@),
        res.2 == has_ascii_lower(cs@),
{
    let mut digit = false;
    let mut upper = false;
    let mut lower = false;
    let mut i: usize = 0;
    while i < cs.len()
        invariant
            i <= cs.len(),
            digit == exists|k: int| 0 <= k < i && is_ascii_digit(#[trigger] cs@[k]),
            upper == exists|k: int| 0 <= k < i && is_ascii_upper(#[trigger] cs@[k]),
            lower == exists|k: int| 0 <= k < i && is_ascii_lower(#[trigger] cs@[k]),
        decreases cs.len() - i,
    {
        let c = cs[i];
        if '0' <= c && c <= '9' {
            digit = true;
        }
        if 'A' <= c && c <= 'Z' {
            upper = true;
        }
        if 'a' <= c && c <= 'z' {
            lower = true;
        }
        i = i + 1;
    }
    (digit, upper, lower)
}

fn whole_match_of(groups: &Vec<Option<String>>) -> (res: String)
    ensures
        res@ == whole_match(groups_view(groups@)),
{
    if groups.len() > 0 {
        match &groups[0] {
            Some(s) => s.clone(),
            None => String::new(),
        }
    } else {
        String::new()
    }
}

/// `[TOKEN]` for a word that looks like a secret, the word itself otherwise.
pub fn token_rewrite(groups: &Vec<Option<String>>) -> (res: String)
    ensures
        res@ == token_replacement(groups_view(groups@)),
{
    let m = whole_match_of(groups);
    if m.as_str().len() >= 24 {
        let cs = chars_of(m.as_str());
        let (digit, upper, lower) = ascii_classes(&cs);
        if digit && upper && lower {
            return String::from_str("[TOKEN]");
        }
    }
    m
}

/// Position of the first occurrence of `n` in `h`.
fn find_chars(h: &Vec<char>, n: &Vec<char>) -> (res: Option<usize>)
    ensures
        match res {
            Some(i) => first_occurrence(h@, n@) == Some(i as int),
            None => first_occurrence(h@, n@) is None,
        },
{
    if n.len() > h.len() {
        assert forall|i: int| !is_first_occurrence(h@, n@, i) by {}
        return None;
    }
    let last = h.len() - n.len();
    let mut i: usize = 0;
    while i <= last
        invariant
            last == h.len() - n.len(),
            forall|j: int| 0 <= j < i ==> !occurs_at(h@, n@, j),
        decreases last + 1 - i,
    {
        let mut k: usize = 0;
        while k < n.len() && h[i + k] == n[k]
            invariant
                i <= last,
                last == h.len() - n.len(),
                k <= n.len(),
                forall|t: int| 0 <= t < k ==> h@[i + t] == n@[t],
            decreases n.len() - k,
        {
            k = k + 1;
        }
        if k == n.len() {
            assert(h@.subrange(i as int, i + n.len()) =~= n@);
            assert(is_first_occurrence(h@, n@, i as int));
            assert forall|a: int, b: int|
                is_first_occurrence(h@, n@, a) && is_first_occurrence(h@, n@, b) implies a
                == b by {
                if a < b {
                    assert(!occurs_at(h@, n@, a));
                } else if b < a {
                    assert(!occurs_at(h@, n@, b));
                }
            }
            return Some(i);
        }
        assert(!occurs_at(h@, n@, i as int)) by {
            assert(h@.subrange(i as int, i + n.len())[k as int] != n@[k as int]);
        }
        if i == last {
            assert forall|j: int| !is_first_occurrence(h@, n@, j) by {}
            return None;
        }
        i = i + 1;
    }
    None
}

/// The match with its phone number (group 1) replaced by `[PHONE]`, keeping
/// the boundary characters around it.
pub fn phone_rewrite(groups: &Vec<Option<String>>) -> (res: String)
    ensures
        res@ == phone_replacement(groups_view(groups@)),
{
    let full = whole_match_of(groups);
    if groups.len() > 1 {
        match &groups[1] {
            Some(p) => {
                let fc = chars_of(full.as_str());
                let pc = chars_of(p.as_str());
                match find_chars(&fc, &pc) {
                    Some(i) => {
                        assert(is_first_occurrence(fc@, pc@, i as int));
                        assert(occurs_at(fc@, pc@, i as int));
                        assert(i + pc@.len() <= fc@.len());
                        let mut res = String::new();
                        push_chars(&mut res, &fc, 0, i);
                        res.append("[PHONE]");
                        push_chars(&mut res, &fc, i + pc.len(), fc.len());
                        assert(fc@.subrange(0, i as int) =~= fc@.take(i as int));
                        assert(fc@.subrange((i + pc.len()) as int, fc.len() as int) =~= fc@.skip(
                            (i + pc.len()) as int,
                        ));
                        res
                    },
                    None => full,
                }
            },
            None => full,
        }
    } else {
        full
    }
}

/// The placeholder stored last for `key` in `map`.
pub(crate) fn find_placeholder(map: &Vec<(String, String)>, key: &String) -> (res: Option<String>)
    ensures
        match res {
            Some(s) => lookup_last(pairs_view(map@), key@) == Some(s@),
            None => lookup_last(pairs_view(map@), key@) is None,
        },
{
    let ghost mv = pairs_view(map@);
    let mut i: usize = map.len();
    assert(mv.take(map.len() as int) =~= mv);
    while i > 0
        invariant
            i <= map.len(),
            mv == pairs_view(map@),
            lookup_last(mv, key@) == lookup_last(mv.take(i as int), key@),
        decreases i,
    {
        assert(mv.take(i as int).drop_last() =~= mv.take((i - 1) as int));
        if map[i - 1].0 == *key {
            return Some(map[i - 1].1.clone());
        }
        i = i - 1;
    }
    None
}

/// The placeholder of a matched name, the name itself when it has none.
pub fn name_rewrite(groups: &Vec<Option<String>>, map: &Vec<(String, String)>) -> (res: String)
    ensures
        res@ == name_replacement(groups_view(groups@), pairs_view(map@)),
{
    if groups.len() > 1 {
        match &groups[1] {
            Some(m) => {
                let key = to_lowercase(m.as_str());
                match find_placeholder(map, &key) {
                    Some(ph) => ph,
                    None => m.clone(),
                }
            },
            None => whole_match_of(groups),
        }
    } else {
        whole_match_of(groups)
    }
}

fn rewrite(rule: MatchRule, groups: &Vec<Option<String>>, map: &Vec<(String, String)>) -> (res:
    String)
    ensures
        res@ == rule_replacement(rule, groups_view(groups@), pairs_view(map@)),
{
    match rule {
        MatchRule::Token => token_rewrite(groups),
        MatchRule::Phone => phone_rewrite(groups),
        MatchRule::Name => name_rewrite(groups, map),
    }
}

/// Each text with every match of `pattern` rewritten by `rule`.
fn replace_rule_each(
    pattern: &str,
    texts: &Vec<String>,
    rule: MatchRule,
    map: &Vec<(String, String)>,
) -> (res: Vec<String>)
    ensures
        res.len() == texts.len(),
        forall|i: int|
            0 <= i < texts.len() ==> (#[trigger] res[i])@ == rule_step(
                pattern@,
                texts[i]@,
                rule,
                pairs_view(map@),
            ),
{
    let split = split_each(pattern, texts);
    let caps = captures_each(pattern, texts);
    let ghost mv = pairs_view(map@);
    let mut res: Vec<String> = Vec::new();
    let mut i: usize = 0;
    while i < texts.len()
        invariant
            i <= texts.len(),
            res.len() == i,
            mv == pairs_view(map@),
            split is Some <==> regex_compiles(pattern@),
            caps is Some <==> regex_compiles(pattern@),
            split matches Some(all) ==> {
                &&& all.len() == texts.len()
                &&& forall|k: int|
                    0 <= k < texts.len() ==> strings_view(#[trigger] all[k]@) == regex_split(
                        pattern@,
                        texts[k]@,
                    )
            },
            caps matches Some(all) ==> {
                &&& all.len() == texts.len()
                &&& forall|k: int|
                    0 <= k < texts.len() ==> matches_view(#[trigger] all[k]@) == regex_captures(
                        pattern@,
                        texts[k]@,
                    )
            },
            forall|k: int|
                0 <= k < i ==> (#[trigger] res[k])@ == rule_step(pattern@, texts[k]@, rule, mv),
        decreases texts.len() - i,
    {
        let t = match (&split, &caps) {
            (Some(pieces), Some(matches)) => {
                let found = &matches[i];
                let mut reps: Vec<String> = Vec::new();
                let mut j: usize = 0;
                while j < found.len()
                    invariant
                        j <= found.len(),
                        reps.len() == j,
                        forall|q: int|
                            0 <= q < j ==> (#[trigger] reps[q])@ == rule_replacement(
                                rule,
                                groups_view(found[q]@),
                                pairs_view(map@),
                            ),
                    decreases found.len() - j,
                {
                    reps.push(rewrite(rule, &found[j], map));
                    j = j + 1;
                }
                let ghost want = regex_captures(pattern@, texts[i as int]@).map_values(
                    |g: Seq<Option<Seq<char>>>| rule_replacement(rule, g, mv),
                );
                assert(strings_view(reps@) =~= want);
                interleave_pieces(&pieces[i], &reps)
            },
            _ => texts[i].clone(),
        };
        res.push(t);
        i = i + 1;
    }
    res
}

/// Applies all enabled redactions to each of `texts`; see `redact_text`.
pub fn redact_all(
    texts: Vec<String>,
    settings: &AnonymizeSettings,
    names_pattern: &Option<String>,
    name_map_lower: &Vec<(String, String)>,
) -> (res: Vec<String>)
    ensures
        res.len() == texts.len(),
        forall|i: int|
            0 <= i < texts.len() ==> (#[trigger] res[i])@ == redact_text(
                texts[i]@,
                *settings,
                match names_pattern {
                    Some(p) => Some(p@),
                    None => None,
                },
                pairs_view(name_map_lower@),
            ),
{
    let no_names: Vec<(String, String)> = Vec::new();
    assert(pairs_view(no_names@) =~= Seq::<(Seq<char>, Seq<char>)>::empty());
    let mut t = texts;
    // Links and e-mails first, so that tokens inside addresses stay whole.
    if settings.hide_links {
        t = replace_literal_each(LINK_PATTERN, &t, "[LINK]");
    }
    if settings.hide_emails {
        t = replace_literal_each(EMAIL_PATTERN, &t, "[EMAIL]");
    }
    if settings.hide_tokens {
        t = replace_literal_each(BOT_TOKEN_PATTERN, &t, "[TOKEN]");
        t = replace_literal_each(BEARER_PATTERN, &t, "[TOKEN]");
        t = replace_literal_each(API_KEY_PATTERN, &t, "[TOKEN]");
        t = replace_literal_each(HEX_TOKEN_PATTERN, &t, "[TOKEN]");
        t = replace_rule_each(ALNUM_TOKEN_PATTERN, &t, MatchRule::Token, &no_names);
    }
    if settings.hide_cards {
        t = replace_literal_each(CARD_PATTERN, &t, "[CARD]");
    }
    if settings.hide_phones {
        t = replace_rule_each(PHONE_PATTERN, &t, MatchRule::Phone, name_map_lower);
    }
    if settings.hide_addresses {
        t = replace_literal_each(ADDRESS_PATTERN, &t, "[ADDRESS]");
        t = replace_literal_each(SHORT_ADDRESS_PATTERN, &t, "[ADDRESS]");
    }
    if settings.hide_names {
        match names_pattern {
            Some(p) => {
                t = replace_rule_each(p.as_str(), &t, MatchRule::Name, name_map_lower);
            },
            None => {},
        }
    }
    t
}

/// Applies all enabled redactions to one message.
pub fn redact(
    text: String,
    settings: &AnonymizeSettings,
    names_pattern: &Option<String>,
    name_map_lower: &Vec<(String, String)>,
) -> (res: String)
    ensures
        res@ == redact_text(
            text@,
            *settings,
            match names_pattern {
                Some(p) => Some(p@),
                None => None,
            },
            pairs_view(name_map_lower@),
        ),
{
    let ghost t = text@;
    let mut texts: Vec<String> = Vec::new();
    texts.push(text);
    let mut out = redact_all(texts, settings, names_pattern, name_map_lower);
    assert(out[0]@ == redact_text(
        t,
        *settings,
        match names_pattern {
            Some(p) => Some(p@),
            None => None,
        },
        pairs_view(name_map_lower@),
    ));
    out.remove(0)
}

} // verus!
