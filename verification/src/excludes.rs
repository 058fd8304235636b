//! Merging of ignore patterns into the target's ignore artifacts. Both
//! merges are append-only: patterns already recorded are never removed or
//! rewritten, and only patterns not yet present are appended, so repeated
//! initialization leaves the files alone once everything is recorded.

use vstd::prelude::*;

use crate::text::{clean_lines, clean_lines_spec, contains_str, join_strs, join_with, trim, trim_spec};

verus! {

/// Each configured pattern reduced to the units the merge records: its
/// lines, trimmed, with blank results dropped. A pattern with surrounding
/// whitespace or embedded line breaks is recorded in this cleaned form,
/// so a repeated merge finds it recorded and writes nothing.
pub open spec fn cleaned_patterns(ps: Seq<Seq<char>>) -> Seq<Seq<char>>
    decreases ps.len(),
{
    if ps.len() == 0 {
        Seq::<Seq<char>>::empty()
    } else {
        clean_lines_spec(ps[0]) + cleaned_patterns(ps.drop_first())
    }
}

/// The patterns of `patterns`, in order, that are not in `known`.
pub open spec fn additions_of(known: Seq<Seq<char>>, patterns: Seq<Seq<char>>) -> Seq<Seq<char>>
    decreases patterns.len(),
{
    if patterns.len() == 0 {
        Seq::<Seq<char>>::empty()
    } else {
        let rest = additions_of(known, patterns.drop_first());
        if known.contains(patterns[0]) {
            rest
        } else {
            seq![patterns[0]] + rest
        }
    }
}

/// The lines that count as recorded patterns in an exclude file: nonempty
/// and not comments.
pub open spec fn exclude_candidates(lines: Seq<Seq<char>>) -> Seq<Seq<char>>
    decreases lines.len(),
{
    if lines.len() == 0 {
        Seq::<Seq<char>>::empty()
    } else {
        let rest = exclude_candidates(lines.drop_first());
        if lines[0].len() > 0 && lines[0][0] != '#' {
            seq![lines[0]] + rest
        } else {
            rest
        }
    }
}

/// What separates the existing text from an appended block: nothing when
/// the text is empty or already ends in a newline, one newline otherwise.
pub open spec fn merge_suffix(existing: Seq<char>) -> Seq<char> {
    if existing.len() == 0 || existing.last() == '\n' {
        Seq::<char>::empty()
    } else {
        "\n"@
    }
}

/// The ignore file after merging the configured patterns: unchanged
/// (`None`) when no patterns are given or every cleaned pattern is
/// already a recorded line; otherwise the old text with the missing
/// patterns appended, one per line. Patterns are compared and recorded in
/// cleaned form, so running the merge again on its own output records
/// nothing more.
pub open spec fn gitignore_merged(existing: Seq<char>, patterns: Seq<Seq<char>>) -> Option<
    Seq<char>,
> {
    let to_add = additions_of(clean_lines_spec(existing), cleaned_patterns(patterns));
    if patterns.len() == 0 {
        None
    } else if to_add.len() == 0 {
        None
    } else {
        Some(existing + merge_suffix(existing) + join_with(to_add, "\n"@) + "\n"@)
    }
}

/// The override patterns read during initialization: the target's plain
/// ignore file and the tool's override file, taken together.
pub open spec fn combined_override_text(gitignore: Seq<char>, gsdignore: Seq<char>) -> Seq<char> {
    gitignore + "\n"@ + gsdignore
}

/// The persistent exclude file after merging the override patterns:
/// unchanged (`None`) when the override text is blank or every candidate
/// line is already recorded; otherwise the old text with a marker comment
/// and the missing patterns appended.
pub open spec fn excludes_merged(
    gitignore: Seq<char>,
    gsdignore: Seq<char>,
    existing: Seq<char>,
) -> Option<Seq<char>> {
    let combined = combined_override_text(gitignore, gsdignore);
    let known = exclude_candidates(clean_lines_spec(existing));
    let to_add = additions_of(known, exclude_candidates(clean_lines_spec(combined)));
    if trim_spec(combined).len() == 0 {
        None
    } else if to_add.len() == 0 {
        None
    } else {
        Some(
            existing + merge_suffix(existing) + "# From .gsdignore\n"@ + join_with(to_add, "\n"@)
                + "\n"@,
        )
    }
}

/// Keeps the lines that count as patterns: nonempty, not comments.
fn filter_candidates(lines: &Vec<String>) -> (r: Vec<String>)
    ensures
        r.deep_view() == exclude_candidates(lines.deep_view()),
{
    let ghost dv = lines.deep_view();
    let mut r: Vec<String> = Vec::new();
    let mut i: usize = 0;
    proof {
        assert(dv.skip(0) =~= dv);
        assert(r.deep_view() =~= Seq::<Seq<char>>::empty());
        assert(Seq::<Seq<char>>::empty() + exclude_candidates(dv) =~= exclude_candidates(dv));
    }
    while i < lines.len()
        invariant
            dv == lines.deep_view(),
            dv.len() == lines.len(),
            i <= lines.len(),
            exclude_candidates(dv) == r.deep_view() + exclude_candidates(dv.skip(i as int)),
        decreases lines.len() - i,
    {
        let ghost rest = dv.skip(i as int);
        proof {
            assert(rest[0] == dv[i as int]);
            assert(rest.drop_first() =~= dv.skip(i + 1));
        }
        let line = &lines[i];
        let n = line.as_str().unicode_len();
        let keep = n > 0 && line.as_str().get_char(0) != '#';
        if keep {
            let ghost before = r.deep_view();
            r.push(line.clone());
            proof {
                assert(r.deep_view() =~= before + seq![dv[i as int]]);
                assert(exclude_candidates(rest) == seq![dv[i as int]] + exclude_candidates(
                    dv.skip(i + 1),
                ));
            }
        }
        i = i + 1;
    }
    proof {
        assert(dv.skip(dv.len() as int) =~= Seq::<Seq<char>>::empty());
        assert(r.deep_view() + Seq::<Seq<char>>::empty() =~= r.deep_view());
    }
    r
}

/// Reduces each pattern to its cleaned lines, in order.
fn clean_pattern_list(patterns: &Vec<String>) -> (r: Vec<String>)
    ensures
        r.deep_view() == cleaned_patterns(patterns.deep_view()),
{
    let ghost pdv = patterns.deep_view();
    let mut r: Vec<String> = Vec::new();
    let mut i: usize = 0;
    proof {
        assert(pdv.skip(0) =~= pdv);
        assert(r.deep_view() =~= Seq::<Seq<char>>::empty());
        assert(Seq::<Seq<char>>::empty() + cleaned_patterns(pdv) =~= cleaned_patterns(pdv));
    }
    while i < patterns.len()
        invariant
            pdv == patterns.deep_view(),
            pdv.len() == patterns.len(),
            i <= patterns.len(),
            cleaned_patterns(pdv) == r.deep_view() + cleaned_patterns(pdv.skip(i as int)),
        decreases patterns.len() - i,
    {
        let ghost rest = pdv.skip(i as int);
        proof {
            assert(rest[0] == pdv[i as int]);
            assert(rest.drop_first() =~= pdv.skip(i + 1));
        }
        let cl = clean_lines(patterns[i].as_str());
        let ghost cldv = cl.deep_view();
        let ghost base = r.deep_view();
        let mut j: usize = 0;
        while j < cl.len()
            invariant
                cldv == cl.deep_view(),
                cldv.len() == cl.len(),
                j <= cl.len(),
                r.deep_view() =~= base + cldv.take(j as int),
            decreases cl.len() - j,
        {
            let ghost before = r.deep_view();
            r.push(cl[j].clone());
            proof {
                assert(r.deep_view() =~= before.push(cldv[j as int]));
                assert(cldv.take(j + 1) =~= cldv.take(j as int).push(cldv[j as int]));
            }
            j = j + 1;
        }
        proof {
            assert(cldv.take(cl.len() as int) =~= cldv);
            assert(r.deep_view() =~= base + clean_lines_spec(pdv[i as int]));
            assert(cleaned_patterns(rest) == clean_lines_spec(pdv[i as int]) + cleaned_patterns(
                pdv.skip(i + 1),
            ));
            assert(base + clean_lines_spec(pdv[i as int]) + cleaned_patterns(pdv.skip(i + 1))
                =~= base + (clean_lines_spec(pdv[i as int]) + cleaned_patterns(pdv.skip(i + 1))));
        }
        i = i + 1;
    }
    proof {
        assert(pdv.skip(pdv.len() as int) =~= Seq::<Seq<char>>::empty());
        assert(r.deep_view() + Seq::<Seq<char>>::empty() =~= r.deep_view());
    }
    r
}

/// The patterns not yet among the known lines, in order.
fn additions(known: &Vec<String>, patterns: &Vec<String>) -> (r: Vec<String>)
    ensures
        r.deep_view() == additions_of(known.deep_view(), patterns.deep_view()),
{
    let ghost kdv = known.deep_view();
    let ghost pdv = patterns.deep_view();
    let mut r: Vec<String> = Vec::new();
    let mut i: usize = 0;
    proof {
        assert(pdv.skip(0) =~= pdv);
        assert(r.deep_view() =~= Seq::<Seq<char>>::empty());
        assert(Seq::<Seq<char>>::empty() + additions_of(kdv, pdv) =~= additions_of(kdv, pdv));
    }
    while i < patterns.len()
        invariant
            kdv == known.deep_view(),
            pdv == patterns.deep_view(),
            pdv.len() == patterns.len(),
            i <= patterns.len(),
            additions_of(kdv, pdv) == r.deep_view() + additions_of(kdv, pdv.skip(i as int)),
        decreases patterns.len() - i,
    {
        let ghost rest = pdv.skip(i as int);
        proof {
            assert(rest[0] == pdv[i as int]);
            assert(rest.drop_first() =~= pdv.skip(i + 1));
        }
        if !contains_str(known, &patterns[i]) {
            let ghost before = r.deep_view();
            r.push(patterns[i].clone());
            proof {
                assert(r.deep_view() =~= before + seq![pdv[i as int]]);
                assert(additions_of(kdv, rest) == seq![pdv[i as int]] + additions_of(
                    kdv,
                    pdv.skip(i + 1),
                ));
            }
        }
        i = i + 1;
    }
    proof {
        assert(pdv.skip(pdv.len() as int) =~= Seq::<Seq<char>>::empty());
        assert(r.deep_view() + Seq::<Seq<char>>::empty() =~= r.deep_view());
    }
    r
}

/// Appends the block of missing patterns to the existing text: a joining
/// newline when needed, an optional header line, the patterns one per
/// line, and a final newline.
fn append_block(existing: &str, header: &str, to_add: &Vec<String>) -> (r: String)
    ensures
        r@ == existing@ + merge_suffix(existing@) + header@ + join_with(to_add.deep_view(), "\n"@)
            + "\n"@,
{
    let mut out = existing.to_owned();
    let n = existing.unicode_len();
    if n > 0 && existing.get_char(n - 1) != '\n' {
        out.append("\n");
    } else {
        proof {
            assert(existing@ + merge_suffix(existing@) =~= existing@);
        }
    }
    out.append(header);
    let joined = join_strs(to_add, "\n");
    out.append(joined.as_str());
    out.append("\n");
    out
}

/// Merges the configured ignore patterns into the target's ignore file
/// text, append-only: `None` when nothing is missing and the file should
/// not be written. Patterns are recorded in cleaned form — trimmed, one
/// line each, blanks skipped — so repeating the merge on its own output
/// is a no-op.
pub fn merge_gitignore(existing: &str, patterns: &Vec<String>) -> (r: Option<String>)
    ensures
        match r {
            Option::Some(s) => gitignore_merged(existing@, patterns.deep_view()) == Some(s@),
            Option::None => gitignore_merged(existing@, patterns.deep_view()) is None,
        },
{
    if patterns.len() == 0 {
        return None;
    }
    let known = clean_lines(existing);
    let cleaned = clean_pattern_list(patterns);
    let to_add = additions(&known, &cleaned);
    if to_add.len() == 0 {
        return None;
    }
    let s = append_block(existing, "", &to_add);
    proof {
        reveal_strlit("");
        assert(""@ =~= Seq::<char>::empty());
        assert(s@ =~= existing@ + merge_suffix(existing@) + join_with(to_add.deep_view(), "\n"@)
            + "\n"@);
    }
    Some(s)
}

/// Merges the override file's patterns into the persistent exclude text,
/// append-only and comment-aware: `None` when the override text is blank
/// or already recorded, so the file should not be written.
pub fn merge_excludes(gitignore_content: &str, gsdignore_content: &str, existing_exclude: &str) -> (r:
    Option<String>)
    ensures
        match r {
            Option::Some(s) => excludes_merged(
                gitignore_content@,
                gsdignore_content@,
                existing_exclude@,
            ) == Some(s@),
            Option::None => excludes_merged(
                gitignore_content@,
                gsdignore_content@,
                existing_exclude@,
            ) is None,
        },
{
    let mut combined = gitignore_content.to_owned();
    combined.append("\n");
    combined.append(gsdignore_content);
    proof {
        assert(combined@ == combined_override_text(gitignore_content@, gsdignore_content@));
    }
    let t = trim(combined.as_str());
    if t.as_str().unicode_len() == 0 {
        return None;
    }
    let known_lines = clean_lines(existing_exclude);
    let known = filter_candidates(&known_lines);
    let cand_lines = clean_lines(combined.as_str());
    let cands = filter_candidates(&cand_lines);
    let to_add = additions(&known, &cands);
    if to_add.len() == 0 {
        return None;
    }
    Some(append_block(existing_exclude, "# From .gsdignore\n", &to_add))
}

} // verus!
