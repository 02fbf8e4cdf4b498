use vstd::prelude::*;

verus! {

/// Web links: `http`, `https`, `ftp`, `www.` and bare links to common sites.
pub const LINK_PATTERN: &'static str = "(?i)(?:https?://|ftp://|www\\.)\\S+|(?:t\\.me|vk\\.com|discord\\.gg|instagram\\.com|twitter\\.com|x\\.com|youtube\\.com|youtu\\.be)/\\S*";

/// E-mail addresses (RFC 5321, simplified).
pub const EMAIL_PATTERN: &'static str = "(?i)\\b[A-Za-z0-9._%+\\-]+@[A-Za-z0-9.\\-]+\\.[A-Za-z]{2,}\\b";

/// Telegram bot tokens: a numeric id, a colon and a long secret.
pub const BOT_TOKEN_PATTERN: &'static str = "\\b\\d{8,12}:[A-Za-z0-9_\\-]{30,60}\\b";

/// Bearer tokens inside text.
pub const BEARER_PATTERN: &'static str = "(?i)\\bBearer\\s+[A-Za-z0-9\\-_=+/]{20,}\\b";

/// Common API key shapes: `sk-`, `ghp_`, `ghs_`, `ya_`, `AIza`, `AKIA`, `xoxb-`, `xoxp-`.
pub const API_KEY_PATTERN: &'static str = "(?i)\\b(?:sk-[A-Za-z0-9]{20,}|ghp_[A-Za-z0-9]{36}|ghs_[A-Za-z0-9]{36}|ya_[A-Za-z0-9_\\-]{30,}|AIza[A-Za-z0-9_\\-]{35}|AKIA[A-Z0-9]{16}|xoxb-[A-Za-z0-9\\-]+|xoxp-[A-Za-z0-9\\-]+)\\b";

/// Hexadecimal tokens of at least 40 characters (SHA-1 length and more).
pub const HEX_TOKEN_PATTERN: &'static str = "\\b[A-Fa-f0-9]{40,}\\b";

/// Alphanumeric words of 20 or more characters, candidates for high-entropy tokens.
pub const ALNUM_TOKEN_PATTERN: &'static str = "\\b[A-Za-z0-9]{20,}\\b";

/// Credit and debit card numbers: four groups of four digits with common separators.
pub const CARD_PATTERN: &'static str = "\\b(?:\\d{4}[\\s\\-.]){3}\\d{4}\\b";

/// Phone numbers in international and local formats. The regex engine has no
/// look-around, so the boundary characters are matched too: group 1 is the
/// number itself, the characters around it in the match are its boundaries.
pub const PHONE_PATTERN: &'static str = "(?x)\n        (?:^|[^0-9])\n        (\n          \\+?[1-9]\\d{0,2}[\\s\\-.]?\\(?\\d{3}\\)?[\\s\\-.]+\\d{3}[\\s\\-.]?\\d{2}[\\s\\-.]?\\d{2}  # structured format with separators\n          |\n          \\+[1-9]\\d{0,2}\\d{7,10}  # international format, raw digits (e.g. +79991234567)\n          |\n          [78]9\\d{9}  # Russian mobile format, raw digits (e.g. 89991234567, 79991234567)\n        )\n        (?:$|[^0-9])\n        ";

/// Russian street addresses, with optional house and flat numbers.
pub const ADDRESS_PATTERN: &'static str = "(?iu)\\b(\u{443}\u{43b}|\u{443}\u{43b}\u{438}\u{446}\u{430}|\u{43f}\u{440}-?\u{442}?|\u{43f}\u{440}\u{43e}\u{441}\u{43f}\u{435}\u{43a}\u{442}|\u{43f}\u{435}\u{440}|\u{43f}\u{435}\u{440}\u{435}\u{443}\u{43b}\u{43e}\u{43a}|\u{431}-\u{440}|\u{431}\u{443}\u{43b}\u{44c}\u{432}\u{430}\u{440}|\u{448}\u{43e}\u{441}\u{441}\u{435}|\u{43d}\u{430}\u{431}|\u{43d}\u{430}\u{431}\u{435}\u{440}\u{435}\u{436}\u{43d}\u{430}\u{44f}|\u{43f}\u{43b}|\u{43f}\u{43b}\u{43e}\u{449}\u{430}\u{434}\u{44c}|\u{442}\u{443}\u{43f}|\u{442}\u{443}\u{43f}\u{438}\u{43a})\\.?\\s+[\u{410}-\u{42f}\u{430}-\u{44f}\u{451}\u{401}0-9][\\w\u{410}-\u{42f}\u{430}-\u{44f}\u{451}\u{401}\\s]{0,40}(?:,\\s*(?:\u{434}|\u{434}\u{43e}\u{43c})\\.?\\s*\\d+[\u{430}-\u{44f}\u{410}-\u{42f}]?)?(?:,\\s*(?:\u{43a}\u{432}|\u{43a}\u{432}\u{430}\u{440}\u{442}\u{438}\u{440}\u{430}|\u{43e}\u{444}|\u{43e}\u{444}\u{438}\u{441})\\.?\\s*\\d+)?\\b";

/// A house number followed by a flat or office number, without a street.
pub const SHORT_ADDRESS_PATTERN: &'static str = "(?iu)\\b(\u{434}|\u{434}\u{43e}\u{43c})\\.?\\s*\\d+[\u{430}-\u{44f}\u{410}-\u{42f}]?[,\\s]+(\u{43a}\u{432}|\u{43a}\u{432}\u{430}\u{440}\u{442}\u{438}\u{440}\u{430}|\u{43e}\u{444}|\u{43e}\u{444}\u{438}\u{441})\\.?\\s*\\d+\\b";

/// Whether `regex::Regex::new` accepts `pattern`.
pub uninterp spec fn regex_compiles(pattern: Seq<char>) -> bool;

/// The pieces of `text` between successive non-overlapping matches of
/// `pattern`, as `regex::Regex::split` yields them.
pub uninterp spec fn regex_split(pattern: Seq<char>, text: Seq<char>) -> Seq<Seq<char>>;

/// The successive non-overlapping matches of `pattern` in `text`, each as the
/// text of every capture group (group 0 is the whole match), as
/// `regex::Regex::captures_iter` yields them.
pub uninterp spec fn regex_captures(pattern: Seq<char>, text: Seq<char>) -> Seq<
    Seq<Option<Seq<char>>>,
>;

/// `s` in lower case, as `str::to_lowercase` gives it.
pub uninterp spec fn lowercase(s: Seq<char>) -> Seq<char>;

pub open spec fn strings_view(v: Seq<String>) -> Seq<Seq<char>> {
    v.map_values(|s: String| s@)
}

pub open spec fn groups_view(g: Seq<Option<String>>) -> Seq<Option<Seq<char>>> {
    g.map_values(
        |o: Option<String>|
            match o {
                Some(s) => Some(s@),
                None => None,
            },
    )
}

pub open spec fn matches_view(m: Seq<Vec<Option<String>>>) -> Seq<Seq<Option<Seq<char>>>> {
    m.map_values(|g: Vec<Option<String>>| groups_view(g@))
}

/// Compiles `pattern` with `regex::Regex::new` and splits each of `texts` with
/// `Regex::split`. `None` exactly when the pattern does not compile; otherwise
/// the pieces of each text are those that `regex_split` names.
#[verifier::external_body]
pub(crate) fn split_each(pattern: &str, texts: &Vec<String>) -> (res: Option<Vec<Vec<String>>>)
    ensures
        res is Some <==> regex_compiles(pattern@),
        res matches Some(all) ==> {
            &&& all.len() == texts.len()
            &&& forall|i: int|
                0 <= i < texts.len() ==> strings_view(#[trigger] all[i]@) == regex_split(
                    pattern@,
                    texts[i]@,
                )
        },
{
    let re = regex::Regex::new(pattern).ok()?;
    Some(texts.iter().map(|t| re.split(t).map(|p| p.to_string()).collect()).collect())
}

/// Compiles `pattern` with `regex::Regex::new` and lists the matches of each of
/// `texts` with `Regex::captures_iter`, every match as the text of each of its
/// capture groups (`Captures::iter`). `None` exactly when the pattern does not
/// compile; otherwise the matches of each text are those that `regex_captures`
/// names.
#[verifier::external_body]
pub(crate) fn captures_each(pattern: &str, texts: &Vec<String>) -> (res: Option<
    Vec<Vec<Vec<Option<String>>>>,
>)
    ensures
        res is Some <==> regex_compiles(pattern@),
        res matches Some(all) ==> {
            &&& all.len() == texts.len()
            &&& forall|i: int|
                0 <= i < texts.len() ==> matches_view(#[trigger] all[i]@) == regex_captures(
                    pattern@,
                    texts[i]@,
                )
        },
{
    let re = regex::Regex::new(pattern).ok()?;
    Some(texts.iter().map(|t| re.captures_iter(t).map(|c| c.iter().map(|m| m.map(|m| m.as_str().to_string())).collect()).collect()).collect())
}

/// The characters that `regex::escape` escapes (`regex_syntax::is_meta_character`).
pub open spec fn is_meta_character(c: char) -> bool {
    c == '\\' || c == '.' || c == '+' || c == '*' || c == '?' || c == '(' || c == ')' || c == '|'
        || c == '[' || c == ']' || c == '{' || c == '}' || c == '^' || c == '$' || c == '#'
        || c == '&' || c == '-' || c == '~'
}

/// `s` with a backslash before each meta character, so that a regex built
/// from it matches `s` literally.
pub open spec fn escaped(s: Seq<char>) -> Seq<char>
    decreases s.len(),
{
    if s.len() == 0 {
        seq![]
    } else if is_meta_character(s.last()) {
        escaped(s.drop_last()) + seq!['\\', s.last()]
    } else {
        escaped(s.drop_last()).push(s.last())
    }
}

/// `regex::escape`: a backslash is put before each meta character of `s`.
#[verifier::external_body]
pub(crate) fn escape_literal(s: &str) -> (res: String)
    ensures
        res@ == escaped(s@),
{
    regex::escape(s)
}

/// `str::to_lowercase`; the result is named `lowercase`.
#[verifier::external_body]
pub(crate) fn to_lowercase(s: &str) -> (res: String)
    ensures
        res@ == lowercase(s@),
{
    s.to_lowercase()
}

} // verus!
