//! The placeholder substitution engine.
//!
//! An argument is split on `@@`; the first piece is a literal prefix.
//! Every later piece is `varNameExpr@:default@:suffix` (both `@:` parts
//! optional; with a single `@:` the rest is a suffix, not a default).
//! The variable-name expression is a comma-separated list of
//! alternatives tried in order; each alternative is a colon-delimited
//! alias chain whose even pieces are literals and whose odd pieces are
//! environment variables replaced by their value (or nothing) before
//! the composite name is looked up.

use crate::errors::ErrorSpec;
use crate::errors::LdenvError;
use crate::split::split1;
use crate::split::split1_exec;
use crate::split::split2;
use crate::split::split2_exec;
use crate::split::split2_rec;
use crate::split::views;
use crate::store::EnvStore;
use vstd::prelude::*;
use vstd::string::StrSliceExecFns;
use vstd::string::StringExecFns;

verus! {

/// The value of a variable, or nothing: a missing alias piece expands
/// to the empty string rather than failing.
pub open spec fn lookup_or_empty(env: Map<Seq<char>, Seq<char>>, k: Seq<char>) -> Seq<char> {
    if env.contains_key(k) {
        env[k]
    } else {
        Seq::empty()
    }
}

/// Expansion of the alias pieces of one alternative, the first piece
/// carrying parity `j`: even pieces are literals, odd pieces are
/// looked up.
pub open spec fn expand_segs(
    env: Map<Seq<char>, Seq<char>>,
    segs: Seq<Seq<char>>,
    j: nat,
) -> Seq<char>
    decreases segs.len(),
{
    if segs.len() == 0 {
        Seq::empty()
    } else {
        (if j % 2 == 0 {
            segs[0]
        } else {
            lookup_or_empty(env, segs[0])
        }) + expand_segs(env, segs.drop_first(), j + 1)
    }
}

/// The composite variable name that one alternative denotes.
pub open spec fn expand_name(env: Map<Seq<char>, Seq<char>>, name: Seq<char>) -> Seq<char> {
    expand_segs(env, split1(name, ':'), 0)
}

/// The first alternative whose expanded name is bound, if any.
pub open spec fn resolve_alternatives(
    env: Map<Seq<char>, Seq<char>>,
    names: Seq<Seq<char>>,
) -> Option<Seq<char>>
    decreases names.len(),
{
    if names.len() == 0 {
        None
    } else if env.contains_key(expand_name(env, names[0])) {
        Some(env[expand_name(env, names[0])])
    } else {
        resolve_alternatives(env, names.drop_first())
    }
}

/// What one piece after a `@@` resolves to: the value of the first
/// bound alternative, else the default if a second `@:` gave one,
/// else a fatal error; the suffix is appended to the value.
pub open spec fn spec_resolve_segment(env: Map<Seq<char>, Seq<char>>, seg: Seq<char>) -> Result<
    Seq<char>,
    ErrorSpec,
> {
    let parts = split2(seg, '@', ':');
    if parts[0].len() == 0 {
        Err(ErrorSpec::EmptyPlaceholderName { segment: seg })
    } else {
        let suffix = if parts.len() > 2 {
            parts[2]
        } else if parts.len() > 1 {
            parts[1]
        } else {
            Seq::<char>::empty()
        };
        let names = split1(parts[0], ',');
        match resolve_alternatives(env, names) {
            Some(v) => Ok(v + suffix),
            None => if parts.len() > 2 {
                Ok(parts[1] + suffix)
            } else {
                Err(
                    ErrorSpec::UnresolvedPlaceholder {
                        segment: seg,
                        attempted: expand_name(env, names.last()),
                    },
                )
            },
        }
    }
}

/// The resolutions of the pieces after the prefix, concatenated; the
/// leftmost failing piece decides the error.
pub open spec fn spec_resolve_segments(
    env: Map<Seq<char>, Seq<char>>,
    segs: Seq<Seq<char>>,
) -> Result<Seq<char>, ErrorSpec>
    decreases segs.len(),
{
    if segs.len() == 0 {
        Ok(Seq::empty())
    } else {
        match spec_resolve_segment(env, segs[0]) {
            Ok(v) => match spec_resolve_segments(env, segs.drop_first()) {
                Ok(rest) => Ok(v + rest),
                Err(e) => Err(e),
            },
            Err(e) => Err(e),
        }
    }
}

/// What a whole argument resolves to: its literal prefix followed by
/// the resolution of every placeholder piece in order.
pub open spec fn spec_resolve_argument(env: Map<Seq<char>, Seq<char>>, arg: Seq<char>) -> Result<
    Seq<char>,
    ErrorSpec,
> {
    let segs = split2(arg, '@', '@');
    match spec_resolve_segments(env, segs.drop_first()) {
        Ok(rest) => Ok(segs[0] + rest),
        Err(e) => Err(e),
    }
}

/// The argument contains no occurrence of the scan symbol `@@`.
pub open spec fn placeholder_free(s: Seq<char>) -> bool {
    forall|i: int| 0 <= i < s.len() - 1 ==> !((#[trigger] s[i]) == '@' && s[i + 1] == '@')
}

fn expand_name_exec(store: &EnvStore, name: &str) -> (r: String)
    ensures
        r@ == expand_name(store@, name@),
{
    let segs = split1_exec(name, ':');
    let n = segs.len();
    let mut out = String::new();
    let mut j: usize = 0;
    proof {
        assert(views(segs@).skip(0) =~~= views(segs@));
        assert(out@ + expand_segs(store@, views(segs@), 0) =~= expand_segs(
            store@,
            views(segs@),
            0,
        ));
    }
    while j < n
        invariant
            n == segs@.len(),
            0 <= j <= n,
            expand_name(store@, name@) == out@ + expand_segs(
                store@,
                views(segs@).skip(j as int),
                j as nat,
            ),
        decreases n - j,
    {
        let ghost pre = out@;
        let ghost tail = views(segs@).skip(j as int);
        proof {
            assert(tail[0] == segs@[j as int]@);
            assert(tail.drop_first() =~~= views(segs@).skip(j as int + 1));
        }
        if j % 2 == 0 {
            out.append(segs[j].as_str());
        } else {
            match store.get(&segs[j]) {
                Some(v) => out.append(v.as_str()),
                None => (),
            }
        }
        proof {
            let piece: Seq<char> = if (j as nat) % 2 == 0 {
                tail[0]
            } else {
                lookup_or_empty(store@, tail[0])
            };
            assert(out@ =~= pre + piece);
            assert(expand_segs(store@, tail, j as nat) == piece + expand_segs(
                store@,
                views(segs@).skip(j as int + 1),
                (j + 1) as nat,
            ));
            assert(pre + (piece + expand_segs(store@, views(segs@).skip(j as int + 1), (j
                + 1) as nat)) =~= (pre + piece) + expand_segs(
                store@,
                views(segs@).skip(j as int + 1),
                (j + 1) as nat,
            ));
        }
        j = j + 1;
    }
    proof {
        assert(views(segs@).skip(n as int).len() == 0);
        assert(out@ + expand_segs(store@, views(segs@).skip(n as int), n as nat) =~= out@);
    }
    out
}

fn resolve_alternatives_exec(store: &EnvStore, names: &Vec<String>) -> (r: (Option<String>, String))
    requires
        names@.len() >= 1,
    ensures
        (match r.0 {
            Some(v) => resolve_alternatives(store@, views(names@)) == Some(v@),
            None => resolve_alternatives(store@, views(names@)) is None && r.1@ == expand_name(
                store@,
                views(names@).last(),
            ),
        }),
{
    let n = names.len();
    let mut last = String::new();
    let mut k: usize = 0;
    proof {
        assert(views(names@).skip(0) =~~= views(names@));
    }
    while k < n
        invariant
            n == names@.len(),
            0 <= k <= n,
            resolve_alternatives(store@, views(names@)) == resolve_alternatives(
                store@,
                views(names@).skip(k as int),
            ),
            k > 0 ==> last@ == expand_name(store@, views(names@)[k - 1]),
        decreases n - k,
    {
        let ghost tail = views(names@).skip(k as int);
        proof {
            assert(tail[0] == names@[k as int]@);
            assert(tail.drop_first() =~~= views(names@).skip(k as int + 1));
        }
        let expanded = expand_name_exec(store, names[k].as_str());
        let found = match store.get(&expanded) {
            Some(v) => Some(v.clone()),
            None => None,
        };
        match found {
            Some(v) => {
                return (Some(v), expanded);
            },
            None => (),
        }
        last = expanded;
        k = k + 1;
    }
    proof {
        assert(views(names@).skip(n as int).len() == 0);
        assert(views(names@).last() == views(names@)[n - 1]);
    }
    (None, last)
}

fn resolve_segment_exec(store: &EnvStore, seg: &String) -> (r: Result<String, LdenvError>)
    ensures
        (match r {
            Ok(v) => spec_resolve_segment(store@, seg@) == Ok::<Seq<char>, ErrorSpec>(v@),
            Err(e) => spec_resolve_segment(store@, seg@) == Err::<Seq<char>, ErrorSpec>(e@),
        }),
{
    let parts = split2_exec(seg.as_str(), '@', ':');
    proof {
        assert(views(parts@)[0] == parts@[0]@);
        if parts@.len() > 1 {
            assert(views(parts@)[1] == parts@[1]@);
        }
        if parts@.len() > 2 {
            assert(views(parts@)[2] == parts@[2]@);
        }
    }
    if parts[0].as_str().is_empty() {
        return Err(LdenvError::EmptyPlaceholderName { segment: seg.clone() });
    }
    let suffix = if parts.len() > 2 {
        parts[2].clone()
    } else if parts.len() > 1 {
        parts[1].clone()
    } else {
        String::new()
    };
    let names = split1_exec(parts[0].as_str(), ',');
    let resolved = resolve_alternatives_exec(store, &names);
    match resolved.0 {
        Some(v) => Ok(v.concat(suffix.as_str())),
        None => {
            if parts.len() > 2 {
                Ok(parts[1].clone().concat(suffix.as_str()))
            } else {
                Err(
                    LdenvError::UnresolvedPlaceholder {
                        segment: seg.clone(),
                        attempted: resolved.1,
                    },
                )
            }
        },
    }
}

/// Substitutes every placeholder of one argument against the store,
/// exactly as the grammar's model says.
pub fn resolve_argument(store: &EnvStore, arg: &String) -> (r: Result<String, LdenvError>)
    ensures
        (match r {
            Ok(v) => spec_resolve_argument(store@, arg@) == Ok::<Seq<char>, ErrorSpec>(v@),
            Err(e) => spec_resolve_argument(store@, arg@) == Err::<Seq<char>, ErrorSpec>(e@),
        }),
{
    let segs = split2_exec(arg.as_str(), '@', '@');
    proof {
        assert(views(segs@)[0] == segs@[0]@);
        assert(views(segs@).drop_first() =~~= views(segs@).skip(1));
    }
    let mut out = segs[0].clone();
    let n = segs.len();
    let mut k: usize = 1;
    while k < n
        invariant
            n == segs@.len(),
            1 <= k <= n,
            views(segs@) == split2(arg@, '@', '@'),
            (match spec_resolve_segments(store@, views(segs@).skip(k as int)) {
                Ok(rest) => spec_resolve_argument(store@, arg@) == Ok::<Seq<char>, ErrorSpec>(
                    out@ + rest,
                ),
                Err(e) => spec_resolve_argument(store@, arg@) == Err::<Seq<char>, ErrorSpec>(e),
            }),
        decreases n - k,
    {
        let ghost tail = views(segs@).skip(k as int);
        proof {
            assert(tail[0] == segs@[k as int]@);
            assert(tail.drop_first() =~~= views(segs@).skip(k as int + 1));
        }
        match resolve_segment_exec(store, &segs[k]) {
            Ok(v) => {
                let ghost pre = out@;
                out.append(v.as_str());
                proof {
                    match spec_resolve_segments(store@, views(segs@).skip(k as int + 1)) {
                        Ok(rest) => {
                            assert(pre + (v@ + rest) =~= (pre + v@) + rest);
                        },
                        Err(_) => (),
                    }
                }
            },
            Err(e) => {
                return Err(e);
            },
        }
        k = k + 1;
    }
    proof {
        assert(views(segs@).skip(n as int).len() == 0);
        assert(out@ + Seq::<char>::empty() =~= out@);
    }
    Ok(out)
}

/// The resolutions of a whole argument list, in order; the leftmost
/// failing argument decides the error.
pub open spec fn spec_resolve_arguments(
    env: Map<Seq<char>, Seq<char>>,
    args: Seq<Seq<char>>,
) -> Result<Seq<Seq<char>>, ErrorSpec>
    decreases args.len(),
{
    if args.len() == 0 {
        Ok(Seq::empty())
    } else {
        match spec_resolve_argument(env, args[0]) {
            Ok(v) => match spec_resolve_arguments(env, args.drop_first()) {
                Ok(rest) => Ok(seq![v] + rest),
                Err(e) => Err(e),
            },
            Err(e) => Err(e),
        }
    }
}

/// Substitutes placeholders in every argument, or passes each argument
/// through byte-identical when `no_parse` is set.
pub fn resolve_arguments(store: &EnvStore, args: &Vec<String>, no_parse: bool) -> (r: Result<
    Vec<String>,
    LdenvError,
>)
    ensures
        no_parse ==> (r matches Ok(out) && views(out@) == views(args@)),
        !no_parse ==> (match r {
            Ok(out) => spec_resolve_arguments(store@, views(args@)) == Ok::<
                Seq<Seq<char>>,
                ErrorSpec,
            >(views(out@)),
            Err(e) => spec_resolve_arguments(store@, views(args@)) == Err::<
                Seq<Seq<char>>,
                ErrorSpec,
            >(e@),
        }),
{
    let n = args.len();
    let mut out: Vec<String> = Vec::new();
    let mut k: usize = 0;
    if no_parse {
        while k < n
            invariant
                n == args@.len(),
                0 <= k <= n,
                views(out@) =~~= views(args@).take(k as int),
            decreases n - k,
        {
            out.push(args[k].clone());
            proof {
                assert(views(out@) =~~= views(args@).take(k as int).push(args@[k as int]@));
                assert(views(args@).take(k as int).push(args@[k as int]@) =~~= views(
                    args@,
                ).take(k as int + 1));
            }
            k = k + 1;
        }
        proof {
            assert(views(args@).take(n as int) =~~= views(args@));
        }
        return Ok(out);
    }
    proof {
        assert(views(args@).skip(0) =~~= views(args@));
        assert(views(out@) + Seq::<Seq<char>>::empty() =~~= views(out@));
    }
    while k < n
        invariant
            n == args@.len(),
            0 <= k <= n,
            !no_parse,
            (match spec_resolve_arguments(store@, views(args@).skip(k as int)) {
                Ok(rest) => spec_resolve_arguments(store@, views(args@)) == Ok::<
                    Seq<Seq<char>>,
                    ErrorSpec,
                >(views(out@) + rest),
                Err(e) => spec_resolve_arguments(store@, views(args@)) == Err::<
                    Seq<Seq<char>>,
                    ErrorSpec,
                >(e),
            }),
        decreases n - k,
    {
        let ghost tail = views(args@).skip(k as int);
        proof {
            assert(tail[0] == args@[k as int]@);
            assert(tail.drop_first() =~~= views(args@).skip(k as int + 1));
        }
        match resolve_argument(store, &args[k]) {
            Ok(v) => {
                let ghost pre = views(out@);
                let ghost gv = v@;
                out.push(v);
                proof {
                    assert(views(out@) =~~= pre.push(gv));
                    match spec_resolve_arguments(store@, views(args@).skip(k as int + 1)) {
                        Ok(rest) => {
                            assert(pre + (seq![gv] + rest) =~~= pre.push(gv) + rest);
                        },
                        Err(_) => (),
                    }
                }
            },
            Err(e) => {
                return Err(e);
            },
        }
        k = k + 1;
    }
    proof {
        assert(views(args@).skip(n as int).len() == 0);
        assert(views(out@) + Seq::<Seq<char>>::empty() =~~= views(out@));
    }
    Ok(out)
}

proof fn lemma_split2_rec_no_delim(s: Seq<char>, cur: Seq<char>)
    requires
        placeholder_free(s),
    ensures
        split2_rec(s, '@', '@', cur) == seq![cur + s],
    decreases s.len(),
{
    if s.len() >= 2 && s[0] == '@' && s[1] == '@' {
        assert(false);
    } else if s.len() == 0 {
        assert(cur + s =~= cur);
    } else {
        assert(placeholder_free(s.skip(1))) by {
            assert forall|i: int| 0 <= i < s.skip(1).len() - 1 implies !((#[trigger] s.skip(1)[i])
                == '@' && s.skip(1)[i + 1] == '@') by {
                assert(s.skip(1)[i] == s[i + 1]);
                assert(s.skip(1)[i + 1] == s[i + 2]);
            }
        }
        lemma_split2_rec_no_delim(s.skip(1), cur.push(s[0]));
        assert(cur.push(s[0]) + s.skip(1) =~= cur + s);
    }
}

/// Law: an argument without the scan symbol resolves to itself, with no
/// lookup outcome able to change it; hence resolving already-resolved
/// (placeholder-free) output a second time is a no-op.
pub proof fn lemma_resolve_placeholder_free(env: Map<Seq<char>, Seq<char>>, s: Seq<char>)
    requires
        placeholder_free(s),
    ensures
        spec_resolve_argument(env, s) == Ok::<Seq<char>, ErrorSpec>(s),
{
    lemma_split2_rec_no_delim(s, Seq::empty());
    let segs = split2(s, '@', '@');
    assert(segs =~~= seq![Seq::<char>::empty() + s]);
    assert(Seq::<char>::empty() + s =~= s);
    assert(segs =~~= seq![s]);
    assert(segs.drop_first() =~~= Seq::<Seq<char>>::empty());
    assert(spec_resolve_segments(env, Seq::<Seq<char>>::empty()) == Ok::<Seq<char>, ErrorSpec>(
        Seq::<char>::empty(),
    ));
    assert(segs[0] + Seq::<char>::empty() =~= s);
}

} // verus!
