//! Assembling the child command: the standalone-`@@` mode-override
//! convention on the raw argument list.
//!
//! Every argument equal to the scan symbol is removed together with the
//! argument after it, which is captured as an explicit mode (the last
//! capture wins). A scan symbol closing the list with nothing after it
//! is fatal unless a mode was already given on the command line; a
//! captured empty mode is fatal.

use crate::errors::ErrorSpec;
use crate::errors::LdenvError;
use crate::split::views;
use vstd::prelude::*;
use vstd::string::StringExecFns;

verus! {

/// What scanning the raw argument list yields: the arguments kept for
/// the child, the captured mode, and whether a scan symbol closed the
/// list with nothing after it.
pub struct ExtractSpec {
    pub kept: Seq<Seq<char>>,
    pub mode: Option<Seq<char>>,
    pub trailing: bool,
}

/// Scanning the raw argument list, left to right.
pub open spec fn extract_spec(args: Seq<Seq<char>>) -> ExtractSpec
    decreases args.len(),
{
    if args.len() == 0 {
        ExtractSpec { kept: Seq::empty(), mode: None, trailing: false }
    } else if args[0] == "@@"@ {
        if args.len() == 1 {
            ExtractSpec { kept: Seq::empty(), mode: None, trailing: true }
        } else {
            let rest = extract_spec(args.skip(2));
            ExtractSpec {
                kept: rest.kept,
                mode: if rest.mode is Some {
                    rest.mode
                } else {
                    Some(args[1])
                },
                trailing: rest.trailing,
            }
        }
    } else {
        let rest = extract_spec(args.skip(1));
        ExtractSpec { kept: seq![args[0]] + rest.kept, mode: rest.mode, trailing: rest.trailing }
    }
}

fn extract_rec(args: &Vec<String>, i: usize) -> (r: (Vec<String>, Option<String>, bool))
    requires
        i <= args@.len(),
    ensures
        ({
            let ex = extract_spec(views(args@).skip(i as int));
            views(r.0@) == ex.kept && (match r.1 {
                Some(m) => ex.mode == Some(m@),
                None => ex.mode is None,
            }) && r.2 == ex.trailing
        }),
    decreases args@.len() - i,
{
    let n = args.len();
    if i >= n {
        proof {
            assert(views(args@).skip(i as int).len() == 0);
            assert(views(Seq::<String>::empty()) =~~= Seq::<Seq<char>>::empty());
        }
        return (Vec::new(), None, false);
    }
    let ghost tail = views(args@).skip(i as int);
    proof {
        assert(tail[0] == args@[i as int]@);
        if i + 1 < n {
            assert(tail[1] == args@[i as int + 1]@);
        }
        assert(tail.skip(1) =~~= views(args@).skip(i as int + 1));
        if i + 2 <= n {
            assert(tail.skip(2) =~~= views(args@).skip(i as int + 2));
        }
    }
    let symbol = String::from_str("@@");
    if args[i].eq(&symbol) {
        if i + 1 >= n {
            proof {
                assert(tail.len() == 1);
                assert(views(Seq::<String>::empty()) =~~= Seq::<Seq<char>>::empty());
            }
            return (Vec::new(), None, true);
        }
        let rest = extract_rec(args, i + 2);
        let mode = match rest.1 {
            Some(m) => Some(m),
            None => Some(args[i + 1].clone()),
        };
        (rest.0, mode, rest.2)
    } else {
        let rest = extract_rec(args, i + 1);
        let mut kept = rest.0;
        let ghost kept_before = kept@;
        kept.insert(0, args[i].clone());
        proof {
            assert(views(kept@) =~~= seq![args@[i as int]@] + views(kept_before));
        }
        (kept, rest.1, rest.2)
    }
}

/// Removes every standalone scan symbol together with the argument
/// after it, capturing that argument as the mode (last capture wins).
/// A trailing symbol without a following mode is fatal unless the
/// command line supplied one; a captured empty mode is fatal.
pub fn extract_mode_override(
    args: &Vec<String>,
    mode_from_cmd: &Option<String>,
    mode_env_name: &String,
) -> (r: Result<(Vec<String>, Option<String>), LdenvError>)
    ensures
        ({
            let ex = extract_spec(views(args@));
            if ex.trailing && (*mode_from_cmd) is None {
                r matches Err(e) && e@ == (ErrorSpec::MissingModeArgument {
                    mode_env_name: mode_env_name@,
                })
            } else if ex.mode is Some && ex.mode.unwrap().len() == 0 {
                r matches Err(e) && e@ == ErrorSpec::EmptyModeValue
            } else {
                r matches Ok(p) && views(p.0@) == ex.kept && (match p.1 {
                    Some(m) => ex.mode == Some(m@),
                    None => ex.mode is None,
                })
            }
        }),
{
    proof {
        assert(views(args@).skip(0) =~~= views(args@));
    }
    let extracted = extract_rec(args, 0);
    let trailing = extracted.2;
    if trailing {
        let has_cmd_mode = match mode_from_cmd {
            Some(_) => true,
            None => false,
        };
        if !has_cmd_mode {
            return Err(LdenvError::MissingModeArgument { mode_env_name: mode_env_name.clone() });
        }
    }
    let empty_mode = match &extracted.1 {
        Some(m) => m.as_str().is_empty(),
        None => false,
    };
    if empty_mode {
        return Err(LdenvError::EmptyModeValue);
    }
    Ok((extracted.0, extracted.1))
}

/// The program to run must have been given.
pub fn require_command(name: &Option<String>) -> (r: Result<String, LdenvError>)
    ensures
        (match name {
            Some(n) => r matches Ok(v) && v@ == n@,
            None => r matches Err(e) && e@ == ErrorSpec::MissingCommand,
        }),
{
    match name {
        Some(n) => Ok(n.clone()),
        None => Err(LdenvError::MissingCommand),
    }
}

} // verus!
