//! The pure decisions inside the rclone repository adapter: which remote a
//! request names, and the normalized repository string handed to the tool.
//! The adapter's subprocess work stays outside the library.

use vstd::prelude::*;
use crate::text::{
    chars_eq, chars_of, split_once_chars, split_once_spec, starts_with_chars, starts_with_seq,
    string_from_chars, trim_chars, trim_spec,
};

verus! {

pub open spec fn opt_views(opts: Seq<(String, String)>) -> Seq<(Seq<char>, Seq<char>)> {
    opts.map_values(|p: (String, String)| (p.0@, p.1@))
}

/// The first value stored under a key, as a map lookup finds it.
pub open spec fn lookup_spec(opts: Seq<(Seq<char>, Seq<char>)>, key: Seq<char>) -> Option<
    Seq<char>,
>
    decreases opts.len(),
{
    if opts.len() == 0 {
        None
    } else if opts[0].0 == key {
        Some(opts[0].1)
    } else {
        lookup_spec(opts.drop_first(), key)
    }
}

fn lookup_option<'a>(options: &'a Vec<(String, String)>, key: &str) -> (r: Option<&'a String>)
    ensures
        match r {
            Some(v) => lookup_spec(opt_views(options@), key@) == Some(v@),
            None => lookup_spec(opt_views(options@), key@) is None,
        },
{
    let kv = chars_of(key);
    let ghost ov = opt_views(options@);
    let mut i: usize = 0;
    let n = options.len();
    proof {
        assert(options@.len() == n as int);
        assert(ov.skip(0) =~= ov);
    }
    while i < options.len()
        invariant
            i <= options@.len() <= usize::MAX,
            kv@ == key@,
            ov == opt_views(options@),
            lookup_spec(ov, key@) == lookup_spec(ov.skip(i as int), key@),
        decreases options@.len() - i,
    {
        proof {
            assert(ov.skip(i as int)[0] == ov[i as int]);
            assert(ov[i as int] == (options@[i as int].0@, options@[i as int].1@));
            assert(ov.skip(i as int).drop_first() =~= ov.skip(i + 1));
        }
        let name = chars_of(options[i].0.as_str());
        if chars_eq(&name, &kv) {
            return Some(&options[i].1);
        }
        i = i + 1;
    }
    proof {
        assert(ov.skip(i as int) =~= Seq::<(Seq<char>, Seq<char>)>::empty());
    }
    None
}

/// The remote named inside an `rclone:<remote>:<path>` repository string.
pub open spec fn spec_remote_from_repository(repo: Seq<char>) -> Option<Seq<char>> {
    if starts_with_seq(repo, "rclone:"@) {
        match split_once_spec(repo.skip(7), ':') {
            Some((a, _)) => Some(a),
            None => None,
        }
    } else {
        None
    }
}

/// The remote an rclone-backed request uses: the trimmed, non-empty
/// `rclone.remote` option, or else the remote named in the repository.
pub open spec fn spec_remote_name(
    repo: Seq<char>,
    opts: Seq<(Seq<char>, Seq<char>)>,
) -> Option<Seq<char>> {
    match lookup_spec(opts, "rclone.remote"@) {
        Some(v) => if trim_spec(v).len() > 0 {
            Some(trim_spec(v))
        } else {
            spec_remote_from_repository(repo)
        },
        None => spec_remote_from_repository(repo),
    }
}

fn remote_from_repository(repository: &str) -> (r: Option<String>)
    ensures
        match r {
            Some(v) => spec_remote_from_repository(repository@) == Some(v@),
            None => spec_remote_from_repository(repository@) is None,
        },
{
    let repo = chars_of(repository);
    let prefix = chars_of("rclone:");
    if !starts_with_chars(&repo, &prefix) {
        return None;
    }
    let n = repo.len();
    proof {
        reveal_strlit("rclone:");
        assert(prefix@.len() == 7);
        assert(repo@.len() == n as int);
    }
    let mut rest: Vec<char> = Vec::new();
    let mut i: usize = 7;
    proof {
        assert(rest@ =~= repo@.skip(7).take(0));
    }
    while i < repo.len()
        invariant
            7 <= i <= repo@.len() <= usize::MAX,
            repo@ == repository@,
            rest@ == repo@.skip(7).take(i - 7),
        decreases repo@.len() - i,
    {
        rest.push(repo[i]);
        i = i + 1;
        proof {
            assert(rest@ =~= repo@.skip(7).take(i - 7));
        }
    }
    proof {
        assert(repo@.skip(7).take(repo@.len() - 7) =~= repo@.skip(7));
    }
    match split_once_chars(&rest, ':') {
        Some((a, _)) => Some(string_from_chars(&a)),
        None => None,
    }
}

/// Decides which rclone remote a request names, if any.
pub fn remote_name(repository: &str, options: &Vec<(String, String)>) -> (r: Option<String>)
    ensures
        match r {
            Some(v) => spec_remote_name(repository@, opt_views(options@)) == Some(v@),
            None => spec_remote_name(repository@, opt_views(options@)) is None,
        },
{
    match lookup_option(options, "rclone.remote") {
        Some(v) => {
            let cs = chars_of(v.as_str());
            let t = trim_chars(&cs);
            if t.len() > 0 {
                Some(string_from_chars(&t))
            } else {
                remote_from_repository(repository)
            }
        },
        None => remote_from_repository(repository),
    }
}

/// Leading slashes removed, as `str::trim_start_matches('/')` leaves it.
pub open spec fn drop_leading_slashes(s: Seq<char>) -> Seq<char>
    decreases s.len(),
{
    if s.len() > 0 && s[0] == '/' {
        drop_leading_slashes(s.drop_first())
    } else {
        s
    }
}

/// A repository string already under the `rclone:` scheme stays as it is;
/// any other is rooted at the remote, its leading slashes dropped.
pub open spec fn spec_normalize_repository(repo: Seq<char>, remote: Seq<char>) -> Seq<char> {
    if starts_with_seq(repo, "rclone:"@) {
        repo
    } else {
        "rclone:"@ + remote + ":"@ + drop_leading_slashes(repo)
    }
}

proof fn lemma_drop_leading_at(s: Seq<char>, a: int)
    requires
        0 <= a <= s.len(),
        forall|j: int| 0 <= j < a ==> s[j] == '/',
        a < s.len() ==> s[a] != '/',
    ensures
        drop_leading_slashes(s) == s.skip(a),
    decreases a,
{
    if a == 0 {
        assert(s.skip(0) =~= s);
    } else {
        lemma_drop_leading_at(s.drop_first(), a - 1);
        assert(s.drop_first().skip(a - 1) =~= s.skip(a));
    }
}

/// Rewrites a repository string for the rclone backend.
pub fn normalize_repository(repository: &str, remote: &str) -> (r: String)
    ensures
        r@ == spec_normalize_repository(repository@, remote@),
{
    let repo = chars_of(repository);
    let prefix = chars_of("rclone:");
    if starts_with_chars(&repo, &prefix) {
        return repository.to_owned();
    }
    let mut a: usize = 0;
    while a < repo.len() && repo[a] == '/'
        invariant
            a <= repo@.len(),
            forall|j: int| 0 <= j < a ==> repo@[j] == '/',
        decreases repo@.len() - a,
    {
        a = a + 1;
    }
    proof {
        lemma_drop_leading_at(repo@, a as int);
    }
    let remote_cs = chars_of(remote);
    let mut out: Vec<char> = Vec::new();
    let mut i: usize = 0;
    while i < prefix.len()
        invariant
            i <= prefix@.len(),
            prefix@ == "rclone:"@,
            out@ == prefix@.subrange(0, i as int),
        decreases prefix@.len() - i,
    {
        out.push(prefix[i]);
        i = i + 1;
        proof {
            assert(out@ =~= prefix@.subrange(0, i as int));
        }
    }
    proof {
        assert(prefix@.subrange(0, prefix@.len() as int) =~= prefix@);
    }
    let ghost after_prefix = out@;
    let mut j: usize = 0;
    while j < remote_cs.len()
        invariant
            j <= remote_cs@.len(),
            remote_cs@ == remote@,
            out@ == after_prefix + remote_cs@.subrange(0, j as int),
        decreases remote_cs@.len() - j,
    {
        out.push(remote_cs[j]);
        j = j + 1;
        proof {
            assert(out@ =~= after_prefix + remote_cs@.subrange(0, j as int));
        }
    }
    proof {
        assert(remote_cs@.subrange(0, remote_cs@.len() as int) =~= remote_cs@);
    }
    out.push(':');
    let ghost after_colon = out@;
    let mut k: usize = a;
    while k < repo.len()
        invariant
            a <= k <= repo@.len(),
            repo@ == repository@,
            out@ == after_colon + repo@.subrange(a as int, k as int),
        decreases repo@.len() - k,
    {
        out.push(repo[k]);
        k = k + 1;
        proof {
            assert(out@ =~= after_colon + repo@.subrange(a as int, k as int));
        }
    }
    proof {
        reveal_strlit(":");
        assert(repo@.subrange(a as int, repo@.len() as int) =~= repo@.skip(a as int));
        assert(after_colon =~= after_prefix + remote@ + ":"@);
        assert(out@ =~= spec_normalize_repository(repository@, remote@));
    }
    string_from_chars(&out)
}

} // verus!
