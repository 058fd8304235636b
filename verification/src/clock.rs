//! Timestamped messages for manually requested snapshots. The wall clock
//! is an outside dependency: the timestamp string comes from a trusted
//! call, and everything built from it is verified for every value it
//! could return.

use vstd::prelude::*;

use crate::text::{dec_str, join_strs, join_with, usize_to_dec};

verus! {

/// The message of a manually requested snapshot: the timestamp, then the
/// changed paths — all of them when at most three changed, otherwise the
/// first two and a count of the rest.
pub open spec fn snapshot_message_spec(timestamp: Seq<char>, files: Seq<Seq<char>>) -> Seq<char> {
    if files.len() <= 3 {
        "Snapshot "@ + timestamp + ": "@ + join_with(files, ", "@)
    } else {
        "Snapshot "@ + timestamp + ": "@ + join_with(files.take(2), ", "@) + " and "@ + dec_str(
            files.len() - 2,
        ) + " more"@
    }
}

/// Relies on chrono's local clock and formatter: the current wall-clock
/// time rendered as `YYYY-MM-DD HH:MM:SS`. The result depends on the
/// clock and the local time zone, so nothing is promised of it.
#[verifier::external_body]
fn local_timestamp() -> String {
    chrono::Local::now().format("%Y-%m-%d %H:%M:%S").to_string()
}

/// Builds the snapshot message for a given timestamp and changed paths.
pub fn snapshot_message(timestamp: &str, files: &Vec<String>) -> (r: String)
    ensures
        r@ == snapshot_message_spec(timestamp@, files.deep_view()),
{
    let mut out = String::from_str("Snapshot ");
    out.append(timestamp);
    out.append(": ");
    if files.len() <= 3 {
        let joined = join_strs(files, ", ");
        out.append(joined.as_str());
    } else {
        let mut visible: Vec<String> = Vec::new();
        visible.push(files[0].clone());
        visible.push(files[1].clone());
        proof {
            assert(visible.deep_view() =~= files.deep_view().take(2));
        }
        let joined = join_strs(&visible, ", ");
        out.append(joined.as_str());
        out.append(" and ");
        let num = usize_to_dec(files.len() - 2);
        out.append(num.as_str());
        out.append(" more");
    }
    out
}

/// Builds the snapshot message for the changed paths at the present
/// moment: whatever timestamp the clock hands back, the message is the
/// one `snapshot_message_spec` gives for it.
pub fn auto_snapshot_message(files: &Vec<String>) -> (r: String)
    ensures
        exists|ts: Seq<char>| r@ == snapshot_message_spec(ts, files.deep_view()),
{
    let ts = local_timestamp();
    let r = snapshot_message(ts.as_str(), files);
    proof {
        assert(r@ == snapshot_message_spec(ts@, files.deep_view()));
    }
    r
}

} // verus!
