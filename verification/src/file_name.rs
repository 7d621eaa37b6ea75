use vstd::prelude::*;

verus! {

/// The character parts the components of a path: a slash, or a backslash as other
/// platforms write it.
pub open spec fn is_separator(c: char) -> bool {
    c == '/' || c == '\\'
}

/// The length of `path` without what says nothing at its end: separators, and
/// components that are a single dot.
pub open spec fn trimmed_len(path: Seq<char>) -> nat
    decreases path.len(),
{
    if path.len() == 0 {
        0
    } else if is_separator(path.last()) {
        trimmed_len(path.drop_last())
    } else if path.last() == '.' && (path.len() == 1 || is_separator(path[path.len() - 2])) {
        trimmed_len(path.drop_last())
    } else {
        path.len()
    }
}

/// Where the last component of `path` begins: behind its last separator, or at its
/// start where it has none.
pub open spec fn component_start(path: Seq<char>) -> nat
    decreases path.len(),
{
    if path.len() == 0 {
        0
    } else if is_separator(path.last()) {
        path.len()
    } else {
        component_start(path.drop_last())
    }
}

/// The file name of `path`: its last component, with slashes and backslashes both
/// read as separators, and separators and single dots at the end passed over. There
/// is none where nothing is left, or where the last component is two dots.
pub open spec fn file_name(path: Seq<char>) -> Option<Seq<char>> {
    let kept = path.take(trimmed_len(path) as int);
    let name = kept.skip(component_start(kept) as int);
    if name.len() == 0 || name == seq!['.', '.'] {
        None
    } else {
        Some(name)
    }
}

/// A file name holds no separator.
pub proof fn lemma_file_name_has_no_separator(path: Seq<char>)
    ensures
        file_name(path) matches Some(name) ==> name.len() > 0 && forall|i: int|
            0 <= i < name.len() ==> !is_separator(#[trigger] name[i]),
{
    let kept = path.take(trimmed_len(path) as int);
    lemma_trimmed_len_bound(path);
    lemma_component_has_no_separator(kept);
}

/// What is left of a path is no longer than the path.
pub proof fn lemma_trimmed_len_bound(path: Seq<char>)
    ensures
        trimmed_len(path) <= path.len(),
    decreases path.len(),
{
    if path.len() > 0 {
        lemma_trimmed_len_bound(path.drop_last());
    }
}

/// The last component of a path begins within the path and holds no separator.
pub proof fn lemma_component_has_no_separator(path: Seq<char>)
    ensures
        component_start(path) <= path.len(),
        forall|i: int|
            component_start(path) <= i < path.len() ==> !is_separator(#[trigger] path[i]),
    decreases path.len(),
{
    if path.len() > 0 && !is_separator(path.last()) {
        lemma_component_has_no_separator(path.drop_last());
        assert forall|i: int| component_start(path) <= i < path.len() implies !is_separator(
            #[trigger] path[i],
        ) by {
            if i < path.len() - 1 {
                assert(path.drop_last()[i] == path[i]);
            }
        }
    }
}

/// The file name in `filename`, where it has one.
pub fn file_name_of(filename: &str) -> (r: Option<String>)
    ensures
        match file_name(filename@) {
            Some(name) => r is Some && r->Some_0@ == name,
            None => r is None,
        },
{
    let n = filename.unicode_len();
    let ghost path = filename@;
    let mut end: usize = n;
    let mut trimming = true;
    assert(path.take(n as int) =~= path);
    while trimming && end > 0
        invariant
            path == filename@,
            n == path.len(),
            end <= n,
            trimmed_len(path.take(end as int)) == trimmed_len(path),
            !trimming ==> end > 0 && trimmed_len(path.take(end as int)) == end,
        decreases end + (if trimming { 1nat } else { 0nat }),
    {
        let ghost kept = path.take(end as int);
        let c = filename.get_char(end - 1);
        let mut dropped = c == '/' || c == '\\';
        if !dropped && c == '.' {
            if end == 1 {
                dropped = true;
            } else {
                let before = filename.get_char(end - 2);
                dropped = before == '/' || before == '\\';
            }
        }
        proof {
            assert(kept.last() == c);
            assert(kept.drop_last() =~= path.take(end - 1));
            if end >= 2 {
                assert(kept[kept.len() - 2] == path[end - 2]);
            }
        }
        if dropped {
            end = end - 1;
        } else {
            trimming = false;
        }
    }
    let ghost kept = path.take(end as int);
    assert(trimmed_len(path) == end);
    let mut start: usize = end;
    let mut seeking = true;
    assert(kept.take(end as int) =~= kept);
    while seeking && start > 0
        invariant
            path == filename@,
            n == path.len(),
            start <= end <= n,
            kept == path.take(end as int),
            component_start(kept.take(start as int)) == component_start(kept),
            !seeking ==> component_start(kept.take(start as int)) == start,
        decreases start + (if seeking { 1nat } else { 0nat }),
    {
        let ghost head = kept.take(start as int);
        let c = filename.get_char(start - 1);
        proof {
            assert(head.last() == c);
            assert(head.drop_last() =~= kept.take(start - 1));
        }
        if c == '/' || c == '\\' {
            seeking = false;
        } else {
            start = start - 1;
        }
    }
    assert(component_start(kept) == start);
    let name = filename.substring_char(start, end);
    assert(name@ =~= kept.skip(start as int));
    if end - start == 0 {
        return None;
    }
    if end - start == 2 && filename.get_char(start) == '.' && filename.get_char(start + 1) == '.' {
        assert(name@ =~= seq!['.', '.']);
        return None;
    }
    proof {
        if name@ == seq!['.', '.'] {
            assert(name@.len() == 2);
            assert(name@[0] == '.');
            assert(name@[1] == '.');
        }
    }
    Some(name.to_string())
}

} // verus!
