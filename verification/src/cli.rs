//! Small helpers of the surrounding program: the usage message and the
//! location of the durable queue file.

use vstd::prelude::*;
use vstd::string::StringExecFns;
use crate::text::{chars_of, string_from_chars};

verus! {

/// The usage banner, appended to a diagnostic message.
pub open spec fn spec_usage(msg: Seq<char>) -> Seq<char> {
    msg
        + "\nusage: worker --master-api-endpoint <url> --local-api-endpoint <url> --api-token <token> [--rustic-bin <path>] [--state-dir <path>]"@
}

pub fn usage(msg: &str) -> (r: String)
    ensures
        r@ == spec_usage(msg@),
{
    let mut out = msg.to_owned();
    out.append(
        "\nusage: worker --master-api-endpoint <url> --local-api-endpoint <url> --api-token <token> [--rustic-bin <path>] [--state-dir <path>]",
    );
    out
}

/// Where the pending-report queue is persisted: the state file inside the
/// state directory, joined as a path.
pub open spec fn spec_pending_reports_path(state_dir: Seq<char>) -> Seq<char> {
    if state_dir.len() == 0 {
        "pending_reports.json"@
    } else if state_dir.last() == '/' {
        state_dir + "pending_reports.json"@
    } else {
        state_dir + "/"@ + "pending_reports.json"@
    }
}

pub fn pending_reports_path(state_dir: &str) -> (r: String)
    ensures
        r@ == spec_pending_reports_path(state_dir@),
{
    let dir = chars_of(state_dir);
    let mut out: Vec<char> = Vec::new();
    let mut i: usize = 0;
    while i < dir.len()
        invariant
            i <= dir@.len(),
            out@ == dir@.subrange(0, i as int),
        decreases dir@.len() - i,
    {
        out.push(dir[i]);
        i = i + 1;
        proof {
            assert(out@ =~= dir@.subrange(0, i as int));
        }
    }
    proof {
        assert(dir@.subrange(0, dir@.len() as int) =~= dir@);
    }
    if dir.len() > 0 && dir[dir.len() - 1] != '/' {
        out.push('/');
    }
    let ghost pre = out@;
    let name = chars_of("pending_reports.json");
    let mut j: usize = 0;
    while j < name.len()
        invariant
            j <= name@.len(),
            out@ == pre + name@.subrange(0, j as int),
        decreases name@.len() - j,
    {
        out.push(name[j]);
        j = j + 1;
        proof {
            assert(out@ =~= pre + name@.subrange(0, j as int));
        }
    }
    proof {
        assert(name@.subrange(0, name@.len() as int) =~= name@);
        reveal_strlit("/");
        if dir@.len() > 0 && dir@.last() != '/' {
            assert(pre =~= dir@ + "/"@);
        }
        assert(out@ =~= spec_pending_reports_path(state_dir@));
    }
    string_from_chars(&out)
}

} // verus!
