//! Generation of commit messages from a list of changed paths.

use vstd::prelude::*;

use crate::text::{dec_str, join_with, usize_to_dec, join_strs};

verus! {

/// The auto-generated commit message: up to `max_files` paths joined with
/// a comma and space, followed by ` +<n> more` when paths were left out.
pub open spec fn commit_message_spec(files: Seq<Seq<char>>, max_files: int) -> Seq<char> {
    let visible = if files.len() <= max_files {
        files
    } else {
        files.take(max_files)
    };
    let joined = join_with(visible, ", "@);
    if files.len() > max_files {
        joined + " +"@ + dec_str(files.len() - max_files) + " more"@
    } else {
        joined
    }
}

/// Builds the commit message for a list of changed paths: the first
/// `max_files` paths comma-joined, with ` +<n> more` appended when the
/// list was longer than that.
pub fn format_commit_message(files: &Vec<String>, max_files: usize) -> (r: String)
    ensures
        r@ == commit_message_spec(files.deep_view(), max_files as int),
{
    let count = if files.len() < max_files {
        files.len()
    } else {
        max_files
    };
    let mut visible: Vec<String> = Vec::new();
    let mut i: usize = 0;
    while i < count
        invariant
            count <= files.len(),
            i <= count,
            visible.deep_view() =~= files.deep_view().take(i as int),
        decreases count - i,
    {
        let ghost before = visible.deep_view();
        visible.push(files[i].clone());
        proof {
            assert(visible.deep_view() =~= before.push(files.deep_view()[i as int]));
            assert(files.deep_view().take(i + 1) =~= files.deep_view().take(i as int).push(
                files.deep_view()[i as int],
            ));
        }
        i = i + 1;
    }
    proof {
        if files.len() <= max_files {
            assert(files.deep_view().take(files.len() as int) =~= files.deep_view());
        }
    }
    let joined = join_strs(&visible, ", ");
    if files.len() > max_files {
        let mut out = joined;
        out.append(" +");
        let num = usize_to_dec(files.len() - max_files);
        out.append(num.as_str());
        out.append(" more");
        out
    } else {
        joined
    }
}

} // verus!
