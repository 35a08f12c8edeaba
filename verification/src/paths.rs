//! Output path construction: where the rendered image of an input file is
//! written.
//!
//! With no output directory the image goes beside the input, at the input
//! path with `.png` appended. With an output directory it goes into that
//! directory, under the input's file name with `.png` appended; an input
//! with no file name component yields an empty target.

use vstd::prelude::*;

verus! {

/// The path with its trailing `/` separators and trailing `.` components
/// removed, as a file-name lookup skips them.
pub open spec fn spec_strip_dot_tail(s: Seq<char>) -> Seq<char>
    decreases s.len(),
{
    if s.len() == 0 {
        s
    } else if s.last() == '/' {
        spec_strip_dot_tail(s.drop_last())
    } else if s.last() == '.' && (s.len() == 1 || s[s.len() - 2] == '/') {
        spec_strip_dot_tail(s.drop_last())
    } else {
        s
    }
}

/// The suffix after the last `/` separator.
pub open spec fn spec_after_last_slash(s: Seq<char>) -> Seq<char>
    decreases s.len(),
{
    if s.len() == 0 {
        s
    } else if s.last() == '/' {
        Seq::empty()
    } else {
        spec_after_last_slash(s.drop_last()).push(s.last())
    }
}

/// The file-name component of a path: its last `/`-separated component,
/// with trailing separators and trailing `.` components skipped. A path
/// with no component left, or ending in a `..` component, has the empty
/// file name.
pub open spec fn spec_file_name(path: Seq<char>) -> Seq<char> {
    let seg = spec_after_last_slash(spec_strip_dot_tail(path));
    if seg.len() == 2 && seg[0] == '.' && seg[1] == '.' {
        Seq::empty()
    } else {
        seg
    }
}

/// The target image path: the input path with `.png` appended when no
/// output directory is given; otherwise the input's file name joined onto
/// the output directory with `.png` appended, or empty when the input has
/// no file name.
pub open spec fn spec_target_path(output: Seq<char>, path: Seq<char>) -> Seq<char> {
    if output.len() == 0 {
        path + ".png"@
    } else {
        let fname = spec_file_name(path);
        if fname.len() == 0 {
            Seq::empty()
        } else if output.last() == '/' {
            output + fname + ".png"@
        } else {
            output + "/"@ + fname + ".png"@
        }
    }
}

proof fn lemma_after_last_slash_at(s: Seq<char>, k: int)
    requires
        0 <= k <= s.len(),
        forall|j: int| k <= j < s.len() ==> s[j] != '/',
        k == 0 || s[k - 1] == '/',
    ensures
        spec_after_last_slash(s) == s.subrange(k, s.len() as int),
    decreases s.len(),
{
    if s.len() == 0 {
        assert(s.subrange(0, 0) =~= s);
    } else if k == s.len() {
        assert(s.last() == s[k - 1]);
        assert(s.subrange(k, s.len() as int) =~= Seq::<char>::empty());
    } else {
        let t = s.drop_last();
        assert(s.last() != '/');
        lemma_after_last_slash_at(t, k);
        assert(t.subrange(k, t.len() as int).push(s.last()) =~= s.subrange(k, s.len() as int));
    }
}

/// Whether the character just before `end` belongs to a trailing `/`
/// separator or a trailing lone `.` component.
fn tail_is_skippable(path: &str, end: usize) -> (b: bool)
    requires
        1 <= end <= path@.len(),
    ensures
        b == (path@[end - 1] == '/' || (path@[end - 1] == '.' && (end == 1 || path@[end - 2]
            == '/'))),
{
    let c = path.get_char(end - 1);
    if c == '/' {
        true
    } else if c == '.' {
        end == 1 || path.get_char(end - 2) == '/'
    } else {
        false
    }
}

/// The target image path for one input file, given the output directory
/// (possibly empty) and the input path.
pub fn target_path(output: &str, path: &str) -> (r: String)
    ensures
        r@ == spec_target_path(output@, path@),
{
    let out_len = output.unicode_len();
    if out_len == 0 {
        let mut s = String::from_str(path);
        s.append(".png");
        return s;
    }
    let path_len = path.unicode_len();
    proof {
        assert(path@.take(path_len as int) =~= path@);
    }
    let mut end = path_len;
    while end > 0 && tail_is_skippable(path, end)
        invariant
            path_len == path@.len(),
            end <= path_len,
            spec_strip_dot_tail(path@.take(end as int)) == spec_strip_dot_tail(path@),
        decreases end,
    {
        proof {
            assert(path@.take(end as int).drop_last() =~= path@.take(end - 1));
        }
        end = end - 1;
    }
    proof {
        assert(spec_strip_dot_tail(path@) == path@.take(end as int));
    }
    let mut start = end;
    while start > 0 && path.get_char(start - 1) != '/'
        invariant
            path_len == path@.len(),
            start <= end <= path_len,
            forall|j: int| start <= j < end ==> path@[j] != '/',
        decreases start,
    {
        start = start - 1;
    }
    proof {
        let stripped = path@.take(end as int);
        assert(forall|j: int| start <= j < stripped.len() ==> stripped[j] != '/');
        if start > 0 {
            assert(stripped[start - 1] == path@[start - 1]);
        }
        lemma_after_last_slash_at(stripped, start as int);
        assert(stripped.subrange(start as int, stripped.len() as int) =~= path@.subrange(
            start as int,
            end as int,
        ));
    }
    if start == end {
        proof {
            reveal_strlit("");
            assert(""@ =~= Seq::<char>::empty());
        }
        return String::from_str("");
    }
    let seg_len = end - start;
    if seg_len == 2 && path.get_char(start) == '.' && path.get_char(start + 1) == '.' {
        proof {
            reveal_strlit("");
            assert(""@ =~= Seq::<char>::empty());
        }
        return String::from_str("");
    }
    let fname = path.substring_char(start, end);
    let mut s = String::from_str(output);
    if output.get_char(out_len - 1) != '/' {
        s.append("/");
    }
    s.append(fname);
    s.append(".png");
    s
}

} // verus!
