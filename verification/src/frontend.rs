use vstd::prelude::*;

use crate::builder::Builder;
use crate::fetcher::{Revisions, Version};
use crate::text::alpha_char;

verus! {

/// The styled prompt line: the message in bold, then an arrow in blue.
pub open spec fn prompt_view(msg: Seq<char>) -> Seq<char> {
    "\u{1b}[1m"@ + msg + "\u{1b}[0m\n\u{1b}[34m\u{276f}\u{1b}[0m "@
}

/// Styles a prompt: the message bold on its own line, a blue arrow under it.
pub fn prompt(msg: &str) -> (r: String)
    ensures
        r@ == prompt_view(msg@),
{
    let mut s = String::new();
    s.append("\u{1b}[1m");
    s.append(msg);
    s.append("\u{1b}[0m\n\u{1b}[34m\u{276f}\u{1b}[0m ");
    proof {
        assert(s@ =~= prompt_view(msg@));
    }
    s
}

/// A plain hint shown beside the prompt; completing it adds nothing.
pub struct SimpleHint(pub String);

impl SimpleHint {
    /// The hint's text.
    pub fn display(&self) -> (r: &str)
        ensures
            r@ == self.0@,
    {
        self.0.as_str()
    }

    /// What completing the hint inserts: nothing.
    pub fn completion(&self) -> (r: Option<&str>)
        ensures
            r matches Some(s) && s@ == Seq::<char>::empty(),
    {
        proof {
            reveal_strlit("");
        }
        Some("")
    }
}

/// The attribute a package is filed under: its name, prefixed with an
/// underscore when it starts with neither a letter nor an underscore.
pub open spec fn attr_view(pname: Seq<char>) -> Seq<char> {
    if pname.len() > 0 && (alpha_char(pname[0]) || pname[0] == '_') {
        pname
    } else {
        "_"@ + pname
    }
}

/// The conventional name-based output path of a package attribute: the
/// attribute's directory under its first two characters.
pub open spec fn by_name_path_view(pname: Seq<char>) -> Option<Seq<char>> {
    if pname.len() == 0 {
        None
    } else {
        let attr = attr_view(pname);
        Some(
            "pkgs/by-name/"@ + attr.take(if attr.len() < 2 {
                attr.len() as int
            } else {
                2
            }) + "/"@ + attr + "/package.nix"@,
        )
    }
}

/// The name-based output path of a package, when it has a name.
pub fn by_name_path(pname: &str) -> (r: Option<String>)
    ensures
        match r {
            Some(p) => by_name_path_view(pname@) == Some(p@),
            None => by_name_path_view(pname@) is None,
        },
{
    let len = pname.unicode_len();
    if len == 0 {
        return None;
    }
    let c0 = pname.get_char(0);
    let mut attr = String::new();
    if !(c0.is_alphabetic() || c0 == '_') {
        attr.append("_");
    }
    attr.append(pname);
    proof {
        assert(attr@ =~= attr_view(pname@));
    }
    let alen = attr.as_str().unicode_len();
    let two = if alen < 2 {
        alen
    } else {
        2
    };
    let head = attr.as_str().substring_char(0, two);
    let mut out = String::new();
    out.append("pkgs/by-name/");
    out.append(head);
    out.append("/");
    out.append(attr.as_str());
    out.append("/package.nix");
    proof {
        assert(head@ =~= attr@.take(two as int));
        assert(out@ =~= "pkgs/by-name/"@ + attr@.take(if attr@.len() < 2 {
            attr@.len() as int
        } else {
            2
        }) + "/"@ + attr@ + "/package.nix"@);
    }
    Some(out)
}

/// The frontend that asks nothing: every question gets the headless default.
pub struct Headless;

impl Headless {
    /// Headless runs cannot prompt for a URL: one must come from the caller.
    pub fn url(&mut self) -> (r: Result<String, String>)
        ensures
            r is Err,
    {
        Err("specifying a URL with --url is required in headless mode".to_owned())
    }

    /// The default revision: the fetch's pick, taken off the record; nothing
    /// when no revisions were fetched.
    pub fn rev(&mut self, revs: Option<Revisions>) -> (r: (String, Option<Version>))
        requires
            revs matches Some(rv) ==> rv.wf(),
        ensures
            match revs {
                Some(rv) => r.0@ == rv.latest@ && r.1 == rv.lookup(rv.latest@),
                None => r.0@ == Seq::<char>::empty() && r.1 is None,
            },
    {
        if let Some(mut revs) = revs {
            let latest = revs.latest.clone();
            let v = revs.remove(latest.as_str());
            (latest, v)
        } else {
            (String::new(), None)
        }
    }

    /// Submodules are always fetched when possible.
    pub fn fetch_submodules(&mut self) -> (r: bool)
        ensures
            r,
    {
        true
    }

    /// The synthesized version stands.
    pub fn version(&mut self, version: &str) -> (r: String)
        ensures
            r@ == version@,
    {
        version.to_owned()
    }

    /// The fetched name stands; none means empty.
    pub fn pname(&mut self, pname: Option<String>) -> (r: String)
        ensures
            match pname {
                Some(p) => r == p,
                None => r@ == Seq::<char>::empty(),
            },
    {
        match pname {
            Some(p) => p,
            None => String::new(),
        }
    }

    /// The first enumerated candidate is the headless choice.
    pub fn builder(&mut self, builders: &Vec<Builder>) -> (r: Builder)
        requires
            builders@.len() > 0,
        ensures
            r == builders@[0],
    {
        builders[0]
    }

    /// The name-based path when the package has a name, the current
    /// directory otherwise.
    pub fn output(&mut self, pname: &str) -> (r: String)
        ensures
            match by_name_path_view(pname@) {
                Some(p) => r@ == p,
                None => r@ == "."@,
            },
    {
        match by_name_path(pname) {
            Some(p) => p,
            None => ".".to_owned(),
        }
    }

    /// Nothing on disk is ever overwritten headlessly.
    pub fn overwrite(&mut self, _path: &str) -> (r: bool)
        ensures
            !r,
    {
        false
    }
}

} // verus!
