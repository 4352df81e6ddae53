//! LDraw file references written with either kind of path separator.

use vstd::prelude::*;

use crate::text::{push_char, push_text, same_text};

verus! {

/// `c` separates the components of an LDraw path: a forward slash or a
/// backslash.
pub open spec fn is_separator(c: char) -> bool {
    c == '/' || c == '\\'
}

/// The characters of `s` after its last separator.
pub open spec fn last_segment(s: Seq<char>) -> Seq<char>
    decreases s.len(),
{
    if s.len() == 0 {
        Seq::empty()
    } else if is_separator(s.last()) {
        Seq::empty()
    } else {
        last_segment(s.drop_last()).push(s.last())
    }
}

/// The non-empty components of `s` that a separator has closed.
pub open spec fn closed_components(s: Seq<char>) -> Seq<Seq<char>>
    decreases s.len(),
{
    if s.len() == 0 {
        Seq::empty()
    } else if is_separator(s.last()) {
        let before = s.drop_last();
        if last_segment(before).len() > 0 {
            closed_components(before).push(last_segment(before))
        } else {
            closed_components(before)
        }
    } else {
        closed_components(s.drop_last())
    }
}

/// The components of the path `s`: the non-empty runs of characters between
/// separators, in order.
pub open spec fn path_components(s: Seq<char>) -> Seq<Seq<char>> {
    if last_segment(s).len() > 0 {
        closed_components(s).push(last_segment(s))
    } else {
        closed_components(s)
    }
}

/// The characters of each string of `v`.
pub open spec fn string_views(v: Seq<String>) -> Seq<Seq<char>> {
    v.map_values(|c: String| c@)
}

/// The characters after the last separator hold no separator.
pub proof fn lemma_last_segment_clean(s: Seq<char>)
    ensures
        forall|j: int| 0 <= j < last_segment(s).len() ==> !is_separator(#[trigger] last_segment(s)[j]),
    decreases s.len(),
{
    if s.len() > 0 && !is_separator(s.last()) {
        lemma_last_segment_clean(s.drop_last());
        let before = last_segment(s.drop_last());
        assert forall|j: int| 0 <= j < last_segment(s).len() implies !is_separator(#[trigger] last_segment(s)[j]) by {
            if j < before.len() {
                assert(last_segment(s)[j] == before[j]);
            }
        }
    }
}

/// The closed components are non-empty and hold no separator.
pub proof fn lemma_closed_components_clean(s: Seq<char>)
    ensures
        forall|i: int|
            0 <= i < closed_components(s).len() ==> #[trigger] closed_components(s)[i].len() > 0 && forall|j: int|
                0 <= j < closed_components(s)[i].len() ==> !is_separator(closed_components(s)[i][j]),
    decreases s.len(),
{
    if s.len() > 0 {
        let before = s.drop_last();
        lemma_closed_components_clean(before);
        lemma_last_segment_clean(before);
        let prior = closed_components(before);
        let now = closed_components(s);
        assert forall|i: int| 0 <= i < now.len() implies #[trigger] now[i].len() > 0 && forall|j: int|
            0 <= j < now[i].len() ==> !is_separator(now[i][j]) by {
            if i < prior.len() {
                assert(now[i] == prior[i]);
            } else {
                assert(now[i] == last_segment(before));
            }
        }
    }
}

/// The shell for which copy commands are written.
#[derive(Debug, Clone, Copy, PartialEq, Eq, Structural)]
pub enum CopyShell {
    /// A Unix shell: `cp` with forward slashes.
    Unix,
    /// The Windows command prompt: `copy` with backslashes and quotes.
    Windows,
    /// Any other system: a description of what to copy.
    Other,
}

/// The lines that suggest how to copy the file `dep` (its path as this
/// system writes it) from the library at `source` to the one at `target`:
/// from `parts`, `parts/s` and `p` in turn.
pub open spec fn copy_lines(dep: Seq<char>, source: Seq<char>, target: Seq<char>, shell: CopyShell) -> Seq<
    Seq<char>,
> {
    match shell {
        CopyShell::Unix => seq![
            "  # Try these locations:"@,
            "  cp "@ + source + "/parts/"@ + dep + " "@ + target + "/parts/"@,
            "  cp "@ + source + "/parts/s/"@ + dep + " "@ + target + "/parts/s/"@,
            "  cp "@ + source + "/p/"@ + dep + " "@ + target + "/p/"@,
        ],
        CopyShell::Windows => seq![
            "  REM Try these locations:"@,
            "  copy \""@ + source + "\\parts\\"@ + dep + "\" \""@ + target + "\\parts\\\""@,
            "  copy \""@ + source + "\\parts\\s\\"@ + dep + "\" \""@ + target + "\\parts\\s\\\""@,
            "  copy \""@ + source + "\\p\\"@ + dep + "\" \""@ + target + "\\p\\\""@,
        ],
        CopyShell::Other => seq![
            "  # Copy "@ + dep + " from "@ + source + " to "@ + target,
            "  # Check: parts/, parts/s/, or p/ subdirectories"@,
        ],
    }
}

/// One line of a copy command: `head`, the source library, `middle`, the
/// file, `gap`, the target library, and `tail`.
fn copy_line(head: &str, source: &str, middle: &str, dep: &str, gap: &str, target: &str, tail: &str) -> (r: String)
    ensures
        r@ == head@ + source@ + middle@ + dep@ + gap@ + target@ + tail@,
{
    let mut line = String::new();
    push_text(&mut line, head);
    push_text(&mut line, source);
    push_text(&mut line, middle);
    push_text(&mut line, dep);
    push_text(&mut line, gap);
    push_text(&mut line, target);
    push_text(&mut line, tail);
    proof {
        assert(line@ =~= head@ + source@ + middle@ + dep@ + gap@ + target@ + tail@);
    }
    line
}

/// The lines that suggest how to copy the file `dep`, written as this system
/// writes paths, from the library at `source` to the one at `target`, for
/// the given shell.
pub fn copy_command_lines(dep: &str, source: &str, target: &str, shell: CopyShell) -> (r: Vec<String>)
    ensures
        string_views(r@) == copy_lines(dep@, source@, target@, shell),
{
    let mut lines: Vec<String> = Vec::new();
    match shell {
        CopyShell::Unix => {
            lines.push(String::from_str("  # Try these locations:"));
            lines.push(copy_line("  cp ", source, "/parts/", dep, " ", target, "/parts/"));
            lines.push(copy_line("  cp ", source, "/parts/s/", dep, " ", target, "/parts/s/"));
            lines.push(copy_line("  cp ", source, "/p/", dep, " ", target, "/p/"));
        },
        CopyShell::Windows => {
            lines.push(String::from_str("  REM Try these locations:"));
            lines.push(copy_line("  copy \"", source, "\\parts\\", dep, "\" \"", target, "\\parts\\\""));
            lines.push(copy_line("  copy \"", source, "\\parts\\s\\", dep, "\" \"", target, "\\parts\\s\\\""));
            lines.push(copy_line("  copy \"", source, "\\p\\", dep, "\" \"", target, "\\p\\\""));
        },
        CopyShell::Other => {
            lines.push(copy_line("  # Copy ", dep, " from ", source, " to ", target, ""));
            lines.push(String::from_str("  # Check: parts/, parts/s/, or p/ subdirectories"));
        },
    }
    proof {
        reveal_strlit("");
        assert(string_views(lines@) =~= copy_lines(dep@, source@, target@, shell));
    }
    lines
}

/// Every component of a path is non-empty and holds no separator, so that
/// joining the components with any separator loses nothing.
pub proof fn components_are_clean(s: Seq<char>)
    ensures
        forall|i: int|
            0 <= i < path_components(s).len() ==> #[trigger] path_components(s)[i].len() > 0 && forall|j: int|
                0 <= j < path_components(s)[i].len() ==> !is_separator(path_components(s)[i][j]),
{
    lemma_closed_components_clean(s);
    lemma_last_segment_clean(s);
}

/// Splits an LDraw path into its components, accepting both `/` and `\` as
/// separators and dropping empty components, so that the caller can join
/// them with the separator of the system at hand.
pub fn normalize_ldraw_path(ldraw_path: &str) -> (r: Vec<String>)
    ensures
        string_views(r@) == path_components(ldraw_path@),
{
    let mut parts: Vec<String> = Vec::new();
    let mut current = String::new();
    let mut current_empty = true;
    proof {
        assert(ldraw_path@.take(0) =~= Seq::<char>::empty());
        assert(string_views(parts@) =~= Seq::<Seq<char>>::empty());
    }
    for c in it: ldraw_path.chars()
        invariant
            it.seq() == ldraw_path@,
            string_views(parts@) == closed_components(ldraw_path@.take(it.index() as int)),
            current@ == last_segment(ldraw_path@.take(it.index() as int)),
            current_empty == (current@.len() == 0),
    {
        let ghost i = it.index() as int;
        let ghost before = ldraw_path@.take(i);
        let ghost after = ldraw_path@.take(i + 1);
        proof {
            assert(after.drop_last() =~= before);
            assert(after.last() == c);
        }
        if c == '/' || c == '\\' {
            if !current_empty {
                let ghost views = string_views(parts@);
                let ghost segment = current@;
                parts.push(current);
                proof {
                    assert(string_views(parts@) =~= views.push(segment));
                }
            }
            current = String::new();
            current_empty = true;
        } else {
            push_char(&mut current, c);
            current_empty = false;
        }
    }
    proof {
        assert(ldraw_path@.take(ldraw_path@.len() as int) =~= ldraw_path@);
    }
    if !current_empty {
        let ghost views = string_views(parts@);
        let ghost segment = current@;
        parts.push(current);
        proof {
            assert(string_views(parts@) =~= views.push(segment));
        }
    }
    parts
}

/// The file extension for an output format: `json` for JSON, `bin` for the
/// binary encoding named `rust`; no other format is supported.
pub fn output_extension(output_format: &str) -> (r: Option<&'static str>)
    ensures
        output_format@ == "json"@ ==> (r matches Some(e) && e@ == "json"@),
        output_format@ != "json"@ && output_format@ == "rust"@ ==> (r matches Some(e) && e@ == "bin"@),
        output_format@ != "json"@ && output_format@ != "rust"@ ==> r is None,
{
    if same_text(output_format, "json") {
        Some("json")
    } else if same_text(output_format, "rust") {
        Some("bin")
    } else {
        None
    }
}

} // verus!
