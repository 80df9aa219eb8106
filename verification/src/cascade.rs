//! Mode resolution and the cascade of environment files.
//!
//! The active mode comes from an explicit argument, then the command
//! line, then the ambient environment, then the literal `local`. For a
//! mode other than `local` the files tried, highest precedence first,
//! are `.env.<mode>.local`, `.env.<mode>`, `.env.local`, `.env`; for
//! `local` only the last two. A key set by a higher-precedence layer
//! (or by the ambient environment) is never overwritten.

use crate::errors::ErrorSpec;
use crate::errors::LdenvError;
use crate::split::views;
use crate::store::lookup_pairs;
use crate::store::first_value;
use crate::store::EnvStore;
use vstd::prelude::*;
use vstd::string::StrSliceExecFns;
use vstd::string::StringExecFns;

verus! {

/// The active mode: explicit argument, else command-line value, else
/// the ambient value of the mode variable, else `local`.
pub open spec fn mode_of(
    specified: Option<String>,
    from_cmd: Option<String>,
    ambient: Option<String>,
) -> Seq<char> {
    match specified {
        Some(m) => m@,
        None => match from_cmd {
            Some(m) => m@,
            None => match ambient {
                Some(v) => v@,
                None => "local"@,
            },
        },
    }
}

/// Resolves the active mode from its three sources in priority order.
pub fn resolve_mode(
    specified: &Option<String>,
    from_cmd: &Option<String>,
    ambient: &Option<String>,
) -> (r: String)
    ensures
        r@ == mode_of(*specified, *from_cmd, *ambient),
{
    match specified {
        Some(m) => m.clone(),
        None => match from_cmd {
            Some(m) => m.clone(),
            None => match ambient {
                Some(v) => v.clone(),
                None => String::from_str("local"),
            },
        },
    }
}

/// The name of the mode variable: command-line value, else the first
/// `MODE_ENV` entry of `.env.local`, else of `.env`, else the ambient
/// `MODE_ENV` value, else the literal `MODE`.
pub open spec fn mode_env_name_of(
    cli: Option<String>,
    local_pairs: Option<Vec<(String, String)>>,
    env_pairs: Option<Vec<(String, String)>>,
    ambient: Option<String>,
) -> Seq<char> {
    match cli {
        Some(n) => n@,
        None => if local_pairs is Some && lookup_pairs(local_pairs.unwrap()@, "MODE_ENV"@)
            is Some {
            lookup_pairs(local_pairs.unwrap()@, "MODE_ENV"@).unwrap()
        } else if env_pairs is Some && lookup_pairs(env_pairs.unwrap()@, "MODE_ENV"@) is Some {
            lookup_pairs(env_pairs.unwrap()@, "MODE_ENV"@).unwrap()
        } else {
            match ambient {
                Some(v) => v@,
                None => "MODE"@,
            }
        },
    }
}

/// Discovers the name of the mode variable, scanning the pre-merge
/// contents of `.env.local` and `.env` (when readable) independently
/// of the real cascade.
pub fn discover_mode_env_name(
    cli: &Option<String>,
    local_pairs: &Option<Vec<(String, String)>>,
    env_pairs: &Option<Vec<(String, String)>>,
    ambient: &Option<String>,
) -> (r: String)
    ensures
        r@ == mode_env_name_of(*cli, *local_pairs, *env_pairs, *ambient),
{
    if let Some(n) = cli {
        return n.clone();
    }
    let key = String::from_str("MODE_ENV");
    match local_pairs {
        Some(pairs) => {
            match first_value(pairs, &key) {
                Some(v) => {
                    return v.clone();
                },
                None => (),
            }
        },
        None => (),
    }
    match env_pairs {
        Some(pairs) => {
            match first_value(pairs, &key) {
                Some(v) => {
                    return v.clone();
                },
                None => (),
            }
        },
        None => (),
    }
    match ambient {
        Some(v) => v.clone(),
        None => String::from_str("MODE"),
    }
}

/// The candidate files of a mode, highest precedence first.
pub open spec fn spec_cascade_paths(mode: Seq<char>) -> Seq<Seq<char>> {
    if mode == "local"@ {
        seq![".env.local"@, ".env"@]
    } else {
        seq![
            ".env."@ + mode + ".local"@,
            ".env."@ + mode,
            ".env.local"@,
            ".env"@,
        ]
    }
}

/// Builds the candidate file names to try for `mode`, in the exact
/// order they are to be loaded.
pub fn cascade_paths(mode: &String) -> (r: Vec<String>)
    ensures
        views(r@) == spec_cascade_paths(mode@),
{
    let local_lit = String::from_str("local");
    let mut r: Vec<String> = Vec::new();
    if !mode.eq(&local_lit) {
        r.push(String::from_str(".env.").concat(mode.as_str()).concat(".local"));
        r.push(String::from_str(".env.").concat(mode.as_str()));
    }
    r.push(String::from_str(".env.local"));
    r.push(String::from_str(".env"));
    proof {
        assert(views(r@) =~~= spec_cascade_paths(mode@));
    }
    r
}

/// Merging one loaded file into the environment: each binding in file
/// order, without overwriting a key that is already present.
pub open spec fn layer_merge(
    env: Map<Seq<char>, Seq<char>>,
    pairs: Seq<(String, String)>,
) -> Map<Seq<char>, Seq<char>>
    decreases pairs.len(),
{
    if pairs.len() == 0 {
        env
    } else {
        let env2 = if env.contains_key(pairs[0].0@) {
            env
        } else {
            env.insert(pairs[0].0@, pairs[0].1@)
        };
        layer_merge(env2, pairs.drop_first())
    }
}

impl EnvStore {
    /// Merges one loaded file into the store, first write wins.
    pub fn apply_layer(&mut self, pairs: &Vec<(String, String)>)
        requires
            old(self).wf(),
        ensures
            final(self).wf(),
            final(self)@ == layer_merge(old(self)@, pairs@),
    {
        let n = pairs.len();
        let mut i: usize = 0;
        proof {
            assert(pairs@.skip(0) =~= pairs@);
        }
        while i < n
            invariant
                n == pairs@.len(),
                0 <= i <= n,
                self.wf(),
                layer_merge(old(self)@, pairs@) == layer_merge(self@, pairs@.skip(i as int)),
            decreases n - i,
        {
            proof {
                assert(pairs@.skip(i as int)[0] == pairs@[i as int]);
                assert(pairs@.skip(i as int).drop_first() =~= pairs@.skip(i as int + 1));
            }
            self.set_if_absent(&pairs[i].0, &pairs[i].1);
            i = i + 1;
        }
        proof {
            assert(pairs@.skip(n as int).len() == 0);
        }
    }

    /// Applies the outcome of reading one cascade file: a loaded file is
    /// merged (first write wins) and reports `true`; a missing file is
    /// skipped and reports `false`; any other failure is fatal, naming
    /// the path and the cause, and leaves the store unchanged.
    pub fn apply_file_outcome(&mut self, path: &String, outcome: FileOutcome) -> (r: Result<
        bool,
        LdenvError,
    >)
        requires
            old(self).wf(),
        ensures
            final(self).wf(),
            (match outcome {
                FileOutcome::Found(pairs) => r == Ok::<bool, LdenvError>(true) && final(self)@
                    == layer_merge(old(self)@, pairs@),
                FileOutcome::NotFound => r == Ok::<bool, LdenvError>(false) && final(self)@ == old(
                    self,
                )@,
                FileOutcome::Failed(cause) => final(self)@ == old(self)@ && (r matches Err(e) && e@
                    == (ErrorSpec::FileAccess { path: path@, cause: cause@ })),
            }),
    {
        match outcome {
            FileOutcome::Found(pairs) => {
                self.apply_layer(&pairs);
                Ok(true)
            },
            FileOutcome::NotFound => Ok(false),
            FileOutcome::Failed(cause) => Err(
                LdenvError::FileAccess { path: path.clone(), cause },
            ),
        }
    }
}

/// What reading one candidate file produced: its bindings in file
/// order, a "file not found" signal, or the reader's failure text.
pub enum FileOutcome {
    Found(Vec<(String, String)>),
    NotFound,
    Failed(String),
}

/// A key already present keeps its value through any later merge.
pub proof fn lemma_merge_existing(
    env: Map<Seq<char>, Seq<char>>,
    pairs: Seq<(String, String)>,
    k: Seq<char>,
)
    requires
        env.contains_key(k),
    ensures
        layer_merge(env, pairs).contains_key(k),
        layer_merge(env, pairs)[k] == env[k],
    decreases pairs.len(),
{
    if pairs.len() > 0 {
        let env2 = if env.contains_key(pairs[0].0@) {
            env
        } else {
            env.insert(pairs[0].0@, pairs[0].1@)
        };
        lemma_merge_existing(env2, pairs.drop_first(), k);
    }
}

/// A key absent before a merge ends bound to the file's first value
/// for it.
pub proof fn lemma_merge_first_value(
    env: Map<Seq<char>, Seq<char>>,
    pairs: Seq<(String, String)>,
    k: Seq<char>,
)
    requires
        !env.contains_key(k),
        lookup_pairs(pairs, k) is Some,
    ensures
        layer_merge(env, pairs).contains_key(k),
        layer_merge(env, pairs)[k] == lookup_pairs(pairs, k).unwrap(),
    decreases pairs.len(),
{
    if pairs[0].0@ == k {
        let env2 = env.insert(k, pairs[0].1@);
        lemma_merge_existing(env2, pairs.drop_first(), k);
    } else {
        let env2 = if env.contains_key(pairs[0].0@) {
            env
        } else {
            env.insert(pairs[0].0@, pairs[0].1@)
        };
        lemma_merge_first_value(env2, pairs.drop_first(), k);
    }
}

/// Law: a key defined in a higher-precedence layer keeps that layer's
/// first value after any lower-precedence layer is merged, provided the
/// environment did not already bind the key before the cascade.
pub proof fn lemma_layer_precedence(
    env0: Map<Seq<char>, Seq<char>>,
    higher: Seq<(String, String)>,
    lower: Seq<(String, String)>,
    k: Seq<char>,
)
    requires
        !env0.contains_key(k),
        lookup_pairs(higher, k) is Some,
    ensures
        layer_merge(layer_merge(env0, higher), lower).contains_key(k),
        layer_merge(layer_merge(env0, higher), lower)[k] == lookup_pairs(higher, k).unwrap(),
{
    lemma_merge_first_value(env0, higher, k);
    lemma_merge_existing(layer_merge(env0, higher), lower, k);
}

} // verus!
