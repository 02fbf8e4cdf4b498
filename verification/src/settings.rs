use vstd::prelude::*;

verus! {

/// Which kinds of sensitive data are masked; each can be switched on or off
/// independently of the others.
#[derive(Clone, Copy)]
pub struct AnonymizeSettings {
    pub hide_names: bool,
    pub hide_phones: bool,
    pub hide_emails: bool,
    pub hide_links: bool,
    pub hide_cards: bool,
    pub hide_addresses: bool,
    pub hide_tokens: bool,
}

/// The pages of the application window.
#[derive(Debug, Clone, Copy, PartialEq, Eq, Structural)]
pub enum TabState {
    Clean,
    Logs,
    Settings,
}

/// Whether a file with extension `ext` is taken as a chat export: exactly
/// `html` or `htm`.
pub fn is_export_extension(ext: &str) -> (res: bool)
    ensures
        res == (ext@ == seq!['h', 't', 'm', 'l'] || ext@ == seq!['h', 't', 'm']),
{
    let cs = crate::text::chars_of(ext);
    let n = cs.len();
    let res = (n == 4 && cs[0] == 'h' && cs[1] == 't' && cs[2] == 'm' && cs[3] == 'l') || (n == 3
        && cs[0] == 'h' && cs[1] == 't' && cs[2] == 'm');
    proof {
        if n == 4 && cs@[0] == 'h' && cs@[1] == 't' && cs@[2] == 'm' && cs@[3] == 'l' {
            assert(cs@ =~= seq!['h', 't', 'm', 'l']);
        }
        if n == 3 && cs@[0] == 'h' && cs@[1] == 't' && cs@[2] == 'm' {
            assert(cs@ =~= seq!['h', 't', 'm']);
        }
        if cs@ == seq!['h', 't', 'm', 'l'] {
            assert(cs@[0] == 'h' && cs@[1] == 't' && cs@[2] == 'm' && cs@[3] == 'l');
        }
        if cs@ == seq!['h', 't', 'm'] {
            assert(cs@[0] == 'h' && cs@[1] == 't' && cs@[2] == 'm');
        }
    }
    res
}

} // verus!
