//! The tool server's command line: which store it serves.
//!
//! Reading the environment and printing are the caller's; what the words
//! on the command line mean is decided here.

use vstd::prelude::*;

use crate::persist::path_join;
use crate::text::{chars_of, has_prefix, string_of, subvec, trim, trimmed};

verus! {

/// What the command line asked for.
#[derive(Debug)]
pub enum Command {
    /// Print the usage and stop.
    Help,
    /// Print the version and stop.
    Version,
    /// Serve the store in this folder (`None`: the one configured).
    Serve(Option<String>),
}

pub enum CommandView {
    Help,
    Version,
    Serve(Option<Seq<char>>),
}

impl View for Command {
    type V = CommandView;

    open spec fn view(&self) -> CommandView {
        match self {
            Command::Help => CommandView::Help,
            Command::Version => CommandView::Version,
            Command::Serve(p) => CommandView::Serve(p.deep_view()),
        }
    }
}

/// A path with a leading `~` taken as the home folder, where there is one;
/// otherwise the path, trimmed.
pub open spec fn expanded(path: Seq<char>, home: Option<Seq<char>>) -> Seq<char> {
    let t = trim(path);
    match home {
        Some(h) => if t == seq!['~'] {
            h
        } else if has_prefix(t, seq!['~', '/']) {
            path_join(h, t.skip(2))
        } else {
            t
        },
        None => t,
    }
}

/// Expand a leading `~`, which clients routinely pass through unexpanded.
pub fn expand(path: &str, home: Option<&str>) -> (r: String)
    ensures
        r@ == expanded(path@, match home {
            Some(h) => Some(h@),
            None => None,
        }),
{
    let t = trimmed(chars_of(path).as_slice());
    match home {
        Some(h) => {
            if t.len() == 1 && t[0] == '~' {
                assert(t@ =~= seq!['~']);
                return h.to_owned();
            }
            if t.len() >= 2 && t[0] == '~' && t[1] == '/' {
                let rest = subvec(t.as_slice(), 2, t.len());
                proof {
                    assert(t@.subrange(0, 2) =~= seq!['~', '/']);
                    assert(rest@ =~= t@.skip(2));
                }
                let joined = crate::persist::join_path(h, string_of(rest.as_slice()).as_str());
                return joined;
            }
            proof {
                if t@ == seq!['~'] {
                    assert(t@[0] == '~');
                }
                if has_prefix(t@, seq!['~', '/']) {
                    assert(t@[0] == t@.subrange(0, 2)[0]);
                    assert(t@[1] == t@.subrange(0, 2)[1]);
                }
            }
            string_of(t.as_slice())
        },
        None => string_of(t.as_slice()),
    }
}

/// The command words, read from the first: `-h`/`--help` and
/// `-V`/`--version` stop at once; any other word starting with `-` is an
/// unknown option; otherwise the word is the store folder, of which there
/// may be only one.
pub open spec fn command_from(args: Seq<Seq<char>>, i: int, root: Option<Seq<char>>, home: Option<Seq<char>>) -> Result<CommandView, Seq<char>>
    decreases args.len() - i,
{
    if i < 0 || i >= args.len() {
        Ok(CommandView::Serve(root))
    } else {
        let a = args[i];
        if a == "-h"@ || a == "--help"@ {
            Ok(CommandView::Help)
        } else if a == "-V"@ || a == "--version"@ {
            Ok(CommandView::Version)
        } else if a.len() > 0 && a[0] == '-' {
            Err("unknown option: "@ + a)
        } else if root is Some {
            Err("only one store folder can be given"@)
        } else {
            command_from(args, i + 1, Some(expanded(a, home)), home)
        }
    }
}

/// Read the command line (without the program's name).
pub fn parse_args(args: &Vec<String>, home: Option<&str>) -> (r: Result<Command, String>)
    ensures
        ({
            let h = match home {
                Some(h) => Some(h@),
                None => None,
            };
            match r {
                Ok(c) => command_from(args.deep_view(), 0, None, h) == Ok::<CommandView, Seq<char>>(c@),
                Err(e) => command_from(args.deep_view(), 0, None, h) == Err::<CommandView, Seq<char>>(e@),
            }
        }),
{
    let ghost h = match home {
        Some(h) => Some(h@),
        None => None,
    };
    let ghost av = args.deep_view();
    let mut root: Option<String> = None;
    let mut i: usize = 0;
    while i < args.len()
        invariant
            i <= args@.len(),
            av == args.deep_view(),
            h == (match home {
                Some(h) => Some(h@),
                None => None,
            }),
            command_from(av, i as int, root.deep_view(), h) == command_from(av, 0, None, h),
        decreases args@.len() - i,
    {
        let a = args[i].as_str();
        assert(a@ == av[i as int]);
        if crate::text::str_eq(a, "-h") || crate::text::str_eq(a, "--help") {
            return Ok(Command::Help);
        }
        if crate::text::str_eq(a, "-V") || crate::text::str_eq(a, "--version") {
            return Ok(Command::Version);
        }
        let v = chars_of(a);
        if v.len() > 0 && v[0] == '-' {
            let mut m = chars_of("unknown option: ");
            crate::text::append_to(&mut m, v.as_slice());
            return Err(string_of(m.as_slice()));
        }
        if root.is_some() {
            return Err("only one store folder can be given".to_owned());
        }
        root = Some(expand(a, home));
        i = i + 1;
    }
    Ok(Command::Serve(root))
}

/// The folder to serve when none was given: `INT_TASKS_DIR` (expanded),
/// else the folder the desktop app is configured to use, so the agent and
/// the app land on the same store without any setup.
pub open spec fn fallback_root(env: Option<Seq<char>>, configured: Option<Seq<char>>, home: Option<Seq<char>>) -> Result<Seq<char>, Seq<char>> {
    match env {
        Some(e) => Ok(expanded(e, home)),
        None => match configured {
            Some(c) => Ok(c),
            None => Err("cannot determine a store folder; pass one explicitly"@),
        },
    }
}

pub fn store_folder(env: Option<&str>, configured: Option<String>, home: Option<&str>) -> (r: Result<String, String>)
    ensures
        ({
            let res = fallback_root(
                match env {
                    Some(e) => Some(e@),
                    None => None,
                },
                configured.deep_view(),
                match home {
                    Some(h) => Some(h@),
                    None => None,
                },
            );
            match r {
                Ok(s) => res == Ok::<Seq<char>, Seq<char>>(s@),
                Err(e) => res == Err::<Seq<char>, Seq<char>>(e@),
            }
        }),
{
    match env {
        Some(e) => Ok(expand(e, home)),
        None => match configured {
            Some(c) => Ok(c),
            None => Err("cannot determine a store folder; pass one explicitly".to_owned()),
        },
    }
}

} // verus!
