//! Verified string splitting on the delimiters of the placeholder
//! grammar: a two-character symbol (`@@`, `@:`) or a single character
//! (`,`, `:`), scanning left to right, leftmost match first.

use vstd::prelude::*;
use vstd::string::StrSliceExecFns;

verus! {

/// Split on the two-character delimiter `d0 d1`, accumulating the
/// current piece in `cur`.
pub open spec fn split2_rec(s: Seq<char>, d0: char, d1: char, cur: Seq<char>) -> Seq<Seq<char>>
    decreases s.len(),
{
    if s.len() >= 2 && s[0] == d0 && s[1] == d1 {
        seq![cur] + split2_rec(s.skip(2), d0, d1, Seq::empty())
    } else if s.len() == 0 {
        seq![cur]
    } else {
        split2_rec(s.skip(1), d0, d1, cur.push(s[0]))
    }
}

/// The pieces of `s` between occurrences of the delimiter `d0 d1`.
pub open spec fn split2(s: Seq<char>, d0: char, d1: char) -> Seq<Seq<char>> {
    split2_rec(s, d0, d1, Seq::empty())
}

/// Split on the single-character delimiter `d`.
pub open spec fn split1_rec(s: Seq<char>, d: char, cur: Seq<char>) -> Seq<Seq<char>>
    decreases s.len(),
{
    if s.len() == 0 {
        seq![cur]
    } else if s[0] == d {
        seq![cur] + split1_rec(s.skip(1), d, Seq::empty())
    } else {
        split1_rec(s.skip(1), d, cur.push(s[0]))
    }
}

/// The pieces of `s` between occurrences of the character `d`.
pub open spec fn split1(s: Seq<char>, d: char) -> Seq<Seq<char>> {
    split1_rec(s, d, Seq::empty())
}

/// The views of the strings in a vector.
pub open spec fn views(v: Seq<String>) -> Seq<Seq<char>> {
    v.map_values(|t: String| t@)
}

/// Splits `s` on the two-character delimiter `d0 d1`.
pub fn split2_exec(s: &str, d0: char, d1: char) -> (r: Vec<String>)
    ensures
        views(r@) == split2(s@, d0, d1),
        r@.len() >= 1,
{
    let n = s.unicode_len();
    let mut r: Vec<String> = Vec::new();
    let mut start: usize = 0;
    let mut i: usize = 0;
    proof {
        assert(s@.skip(0) =~= s@);
        assert(s@.subrange(0, 0) =~= Seq::<char>::empty());
        assert(views(r@) =~~= Seq::<Seq<char>>::empty());
        assert(views(r@) + split2_rec(s@.skip(0), d0, d1, s@.subrange(0, 0)) =~~= split2_rec(
            s@,
            d0,
            d1,
            Seq::empty(),
        ));
    }
    while i < n
        invariant
            n == s@.len(),
            0 <= start <= i <= n,
            split2(s@, d0, d1) =~~= views(r@) + split2_rec(
                s@.skip(i as int),
                d0,
                d1,
                s@.subrange(start as int, i as int),
            ),
        decreases n - i,
    {
        proof {
            assert(s@.skip(i as int)[0] == s@[i as int]);
            if i + 1 < n {
                assert(s@.skip(i as int)[1] == s@[i as int + 1]);
            }
        }
        let is_delim = if s.get_char(i) == d0 && i + 1 < n {
            s.get_char(i + 1) == d1
        } else {
            false
        };
        if is_delim {
            let piece = s.substring_char(start, i).to_owned();
            let ghost old_r = r@;
            r.push(piece);
            proof {
                let cur = s@.subrange(start as int, i as int);
                assert(s@.skip(i as int).len() >= 2);
                assert(split2_rec(s@.skip(i as int), d0, d1, cur) == seq![cur] + split2_rec(
                    s@.skip(i as int).skip(2),
                    d0,
                    d1,
                    Seq::empty(),
                ));
                assert(s@.skip(i as int).skip(2) =~= s@.skip(i as int + 2));
                assert(views(r@) =~~= views(old_r).push(cur));
                assert(views(old_r) + (seq![cur] + split2_rec(
                    s@.skip(i as int + 2),
                    d0,
                    d1,
                    Seq::empty(),
                )) =~~= views(old_r).push(cur) + split2_rec(
                    s@.skip(i as int + 2),
                    d0,
                    d1,
                    Seq::empty(),
                ));
                assert(s@.subrange(i as int + 2, i as int + 2) =~= Seq::<char>::empty());
            }
            i = i + 2;
            start = i;
        } else {
            proof {
                let cur = s@.subrange(start as int, i as int);
                assert(!(s@.skip(i as int).len() >= 2 && s@.skip(i as int)[0] == d0 && s@.skip(
                    i as int,
                )[1] == d1));
                assert(split2_rec(s@.skip(i as int), d0, d1, cur) == split2_rec(
                    s@.skip(i as int).skip(1),
                    d0,
                    d1,
                    cur.push(s@[i as int]),
                ));
                assert(s@.skip(i as int).skip(1) =~= s@.skip(i as int + 1));
                assert(cur.push(s@[i as int]) =~= s@.subrange(start as int, i as int + 1));
            }
            i = i + 1;
        }
    }
    let piece = s.substring_char(start, n).to_owned();
    let ghost old_r = r@;
    r.push(piece);
    proof {
        let cur = s@.subrange(start as int, n as int);
        assert(s@.skip(n as int).len() == 0);
        assert(split2_rec(s@.skip(n as int), d0, d1, cur) == seq![cur]);
        assert(views(r@) =~~= views(old_r).push(cur));
        assert(views(old_r) + seq![cur] =~~= views(old_r).push(cur));
    }
    r
}

/// Splits `s` on the single-character delimiter `d`.
pub fn split1_exec(s: &str, d: char) -> (r: Vec<String>)
    ensures
        views(r@) == split1(s@, d),
        r@.len() >= 1,
{
    let n = s.unicode_len();
    let mut r: Vec<String> = Vec::new();
    let mut start: usize = 0;
    let mut i: usize = 0;
    proof {
        assert(s@.skip(0) =~= s@);
        assert(s@.subrange(0, 0) =~= Seq::<char>::empty());
        assert(views(r@) =~~= Seq::<Seq<char>>::empty());
        assert(views(r@) + split1_rec(s@.skip(0), d, s@.subrange(0, 0)) =~~= split1_rec(
            s@,
            d,
            Seq::empty(),
        ));
    }
    while i < n
        invariant
            n == s@.len(),
            0 <= start <= i <= n,
            split1(s@, d) =~~= views(r@) + split1_rec(
                s@.skip(i as int),
                d,
                s@.subrange(start as int, i as int),
            ),
        decreases n - i,
    {
        proof {
            assert(s@.skip(i as int)[0] == s@[i as int]);
        }
        if s.get_char(i) == d {
            let piece = s.substring_char(start, i).to_owned();
            let ghost old_r = r@;
            r.push(piece);
            proof {
                let cur = s@.subrange(start as int, i as int);
                assert(split1_rec(s@.skip(i as int), d, cur) == seq![cur] + split1_rec(
                    s@.skip(i as int).skip(1),
                    d,
                    Seq::empty(),
                ));
                assert(s@.skip(i as int).skip(1) =~= s@.skip(i as int + 1));
                assert(views(r@) =~~= views(old_r).push(cur));
                assert(views(old_r) + (seq![cur] + split1_rec(
                    s@.skip(i as int + 1),
                    d,
                    Seq::empty(),
                )) =~~= views(old_r).push(cur) + split1_rec(
                    s@.skip(i as int + 1),
                    d,
                    Seq::empty(),
                ));
                assert(s@.subrange(i as int + 1, i as int + 1) =~= Seq::<char>::empty());
            }
            i = i + 1;
            start = i;
        } else {
            proof {
                let cur = s@.subrange(start as int, i as int);
                assert(split1_rec(s@.skip(i as int), d, cur) == split1_rec(
                    s@.skip(i as int).skip(1),
                    d,
                    cur.push(s@[i as int]),
                ));
                assert(s@.skip(i as int).skip(1) =~= s@.skip(i as int + 1));
                assert(cur.push(s@[i as int]) =~= s@.subrange(start as int, i as int + 1));
            }
            i = i + 1;
        }
    }
    let piece = s.substring_char(start, n).to_owned();
    let ghost old_r = r@;
    r.push(piece);
    proof {
        let cur = s@.subrange(start as int, n as int);
        assert(split1_rec(s@.skip(n as int), d, cur) == seq![cur]);
        assert(views(r@) =~~= views(old_r).push(cur));
        assert(views(old_r) + seq![cur] =~~= views(old_r).push(cur));
    }
    r
}

} // verus!
