//! File names, stems and extensions of slash-separated paths.
use vstd::prelude::*;

use vstd::string::{StrSliceExecFns, StringExecFns};

use crate::text::{opt_text, owned, same, slice_string, split, str_split, texts, to_chars};

verus! {

/// The position of the last `c` in `s`.
pub open spec fn last_pos(s: Seq<char>, c: char) -> Option<int>
    decreases s.len(),
{
    if s.len() == 0 {
        None
    } else if s.last() == c {
        Some(s.len() - 1)
    } else {
        last_pos(s.drop_last(), c)
    }
}

pub proof fn lemma_last_pos(s: Seq<char>, c: char)
    ensures
        match last_pos(s, c) {
            Some(i) => 0 <= i < s.len() && s[i] == c && forall|j: int|
                i < j < s.len() ==> #[trigger] s[j] != c,
            None => forall|j: int| 0 <= j < s.len() ==> #[trigger] s[j] != c,
        },
    decreases s.len(),
{
    if s.len() > 0 && s.last() != c {
        let t = s.drop_last();
        lemma_last_pos(t, c);
        assert forall|j: int|
            (match last_pos(s, c) {
                Some(i) => i < j,
                None => 0 <= j,
            }) && j < s.len() implies #[trigger] s[j] != c by {
            if j < s.len() - 1 {
                assert(t[j] == s[j]);
            }
        }
    }
}

/// The path without slashes at its end, nor steps that stay where they are.
pub open spec fn trim_slashes(s: Seq<char>) -> Seq<char>
    decreases s.len(),
{
    if s.len() > 0 && s.last() == '/' {
        trim_slashes(s.drop_last())
    } else if s.len() > 1 && s.last() == '.' && s[s.len() - 2] == '/' {
        trim_slashes(s.drop_last())
    } else {
        s
    }
}

/// What stands after the last slash.
pub open spec fn last_step(s: Seq<char>) -> Seq<char> {
    match last_pos(s, '/') {
        Some(i) => s.skip(i + 1),
        None => s,
    }
}

/// The name of the file that a path leads to.
pub open spec fn file_name(path: Seq<char>) -> Option<Seq<char>> {
    let name = last_step(trim_slashes(path));
    if name.len() == 0 || name == seq!['.'] || name == seq!['.', '.'] {
        None
    } else {
        Some(name)
    }
}

/// A file name without its extension.
pub open spec fn stem_of(name: Seq<char>) -> Seq<char> {
    match last_pos(name, '.') {
        Some(i) => if i > 0 {
            name.take(i)
        } else {
            name
        },
        None => name,
    }
}

/// The extension of a file name; a dot that begins the name makes none.
pub open spec fn extension_of(name: Seq<char>) -> Option<Seq<char>> {
    match last_pos(name, '.') {
        Some(i) => if i > 0 {
            Some(name.skip(i + 1))
        } else {
            None
        },
        None => None,
    }
}

/// The file name of a path, without its extension.
pub open spec fn file_stem(path: Seq<char>) -> Option<Seq<char>> {
    match file_name(path) {
        Some(n) => Some(stem_of(n)),
        None => None,
    }
}

/// The extension of the file that a path leads to.
pub open spec fn extension(path: Seq<char>) -> Option<Seq<char>> {
    match file_name(path) {
        Some(n) => extension_of(n),
        None => None,
    }
}

/// The position of the last `c` in the first `n` characters.
pub fn chars_last_pos(v: &Vec<char>, c: char, n: usize) -> (r: Option<usize>)
    requires
        n <= v@.len(),
    ensures
        match r {
            Some(i) => last_pos(v@.take(n as int), c) == Some(i as int) && i < n,
            None => last_pos(v@.take(n as int), c) is None,
        },
{
    let mut i: usize = n;
    while i > 0
        invariant
            i <= n <= v@.len(),
            last_pos(v@.take(n as int), c) == last_pos(v@.take(i as int), c),
        decreases i,
    {
        assert(v@.take(i as int).drop_last() =~= v@.take(i - 1));
        if v[i - 1] == c {
            return Some(i - 1);
        }
        i = i - 1;
    }
    None
}

/// The name of the file that a path leads to.
pub fn path_file_name(path: &str) -> (r: Option<String>)
    ensures
        opt_text(r) == file_name(path@),
{
    let v = to_chars(path);
    let mut n: usize = v.len();
    assert(v@.take(n as int) =~= v@);
    while n > 0 && (v[n - 1] == '/' || (n > 1 && v[n - 1] == '.' && v[n - 2] == '/'))
        invariant
            v@ == path@,
            n <= v@.len(),
            trim_slashes(path@) == trim_slashes(v@.take(n as int)),
        decreases n,
    {
        assert(v@.take(n as int).drop_last() =~= v@.take(n - 1));
        n = n - 1;
    }
    let ghost s = v@.take(n as int);
    assert(trim_slashes(path@) == s);
    let from: usize = match chars_last_pos(&v, '/', n) {
        Some(i) => i + 1,
        None => 0,
    };
    let name = slice_string(&v, from, n);
    assert(last_step(s) =~= name@);
    let len: usize = n - from;
    if len == 0 {
        return None;
    }
    if len == 1 && v[from] == '.' {
        assert(name@ =~= seq!['.']);
        return None;
    }
    if len == 2 && v[from] == '.' && v[from + 1] == '.' {
        assert(name@ =~= seq!['.', '.']);
        return None;
    }
    assert(name@[0] == v@[from as int]);
    assert(len == 2 ==> name@[1] == v@[from + 1]);
    Some(name)
}

/// A file name without its extension.
pub fn name_stem(name: &str) -> (r: String)
    ensures
        r@ == stem_of(name@),
{
    let v = to_chars(name);
    let n = v.len();
    assert(v@.take(n as int) =~= name@);
    match chars_last_pos(&v, '.', n) {
        Some(i) => if i > 0 {
            let r = slice_string(&v, 0, i);
            assert(r@ =~= name@.take(i as int));
            r
        } else {
            owned(name)
        },
        None => owned(name),
    }
}

/// The extension of a file name.
pub fn name_extension(name: &str) -> (r: Option<String>)
    ensures
        opt_text(r) == extension_of(name@),
{
    let v = to_chars(name);
    let n = v.len();
    assert(v@.take(n as int) =~= name@);
    match chars_last_pos(&v, '.', n) {
        Some(i) => if i > 0 {
            let r = slice_string(&v, i + 1, n);
            assert(r@ =~= name@.skip(i + 1));
            Some(r)
        } else {
            None
        },
        None => None,
    }
}

/// The file name of a path, without its extension.
pub fn path_file_stem(path: &str) -> (r: Option<String>)
    ensures
        opt_text(r) == file_stem(path@),
{
    match path_file_name(path) {
        Some(n) => Some(name_stem(n.as_str())),
        None => None,
    }
}

/// The extension of the file that a path leads to.
pub fn path_extension(path: &str) -> (r: Option<String>)
    ensures
        opt_text(r) == extension(path@),
{
    match path_file_name(path) {
        Some(n) => name_extension(n.as_str()),
        None => None,
    }
}

/// What a step of a path adds to its sort key. An empty step and a step to the
/// same directory add nothing, except at the very beginning of a relative path;
/// a step to the parent comes before any name. A key ends with a character that
/// no name has.
pub open spec fn step_key(step: Seq<char>, first: bool) -> Seq<char> {
    if step.len() == 0 {
        Seq::empty()
    } else if step == "."@ {
        if first {
            seq!['\u{2}', '\0']
        } else {
            Seq::empty()
        }
    } else if step == ".."@ {
        seq!['\u{3}', '\0']
    } else {
        seq!['\u{4}'] + step + seq!['\0']
    }
}

/// The key of the first `n` steps of a path.
pub open spec fn steps_key(steps: Seq<Seq<char>>, n: int) -> Seq<char>
    decreases n,
{
    if n <= 0 {
        Seq::empty()
    } else {
        steps_key(steps, n - 1) + step_key(steps[n - 1], n == 1)
    }
}

/// The sort key of a path: paths compare step by step, the root before all
/// else.
pub open spec fn path_key(path: Seq<char>) -> Seq<char> {
    let root = if path.len() > 0 && path[0] == '/' {
        seq!['\u{1}', '\0']
    } else {
        Seq::empty()
    };
    root + steps_key(split(path, '/'), split(path, '/').len() as int)
}

/// The sort key of a path.
pub fn path_sort_key(path: &str) -> (r: String)
    ensures
        r@ == path_key(path@),
{
    let mut r = owned("");
    proof {
        reveal_strlit("");
    }
    if path.unicode_len() > 0 && path.get_char(0) == '/' {
        r.push('\u{1}');
        r.push('\0');
    }
    let ghost root = if path@.len() > 0 && path@[0] == '/' {
        seq!['\u{1}', '\0']
    } else {
        Seq::empty()
    };
    assert(r@ =~= root);
    let steps = str_split(path, '/');
    let ghost all = texts(steps@);
    let mut i: usize = 0;
    assert(root + steps_key(all, 0) =~= root);
    while i < steps.len()
        invariant
            all == texts(steps@),
            i <= steps@.len(),
            r@ == root + steps_key(all, i as int),
        decreases steps@.len() - i,
    {
        assert(all[i as int] == steps@[i as int]@);
        let ghost before = r@;
        let step = steps[i].as_str();
        if step.is_empty() {
            assert(before =~= before + step_key(step@, i == 0));
        } else if same(step, ".") {
            if i == 0 {
                r.push('\u{2}');
                r.push('\0');
            }
        } else if same(step, "..") {
            r.push('\u{3}');
            r.push('\0');
        } else {
            r.push('\u{4}');
            r.append(step);
            r.push('\0');
        }
        assert(r@ =~= before + step_key(all[i as int], i == 0));
        assert(r@ =~= root + steps_key(all, i + 1));
        i = i + 1;
    }
    r
}

} // verus!
