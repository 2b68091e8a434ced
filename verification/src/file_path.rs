//! Paths of request files, with `/` between their parts.

use vstd::prelude::*;

use crate::text::{chars_of, text_of};

verus! {

/// What the name of a request file ends in.
pub const DATA_FILE_ENDING: &'static str = ".sqlite";

/// A path from a directory on. A path that begins with a slash does not need the directory.
pub open spec fn joined_path(dir: Seq<char>, path: Seq<char>) -> Seq<char> {
    if path.len() > 0 && path[0] == '/' {
        path
    } else if dir.len() == 0 || dir.last() == '/' {
        dir + path
    } else {
        dir + seq!['/'] + path
    }
}

/// Where the last part of a path ends, among its first `n` characters: before slashes, and before
/// single dots that stand for the directory itself.
pub open spec fn part_end(path: Seq<char>, n: int) -> int
    decreases n,
{
    if n <= 0 {
        0
    } else if path[n - 1] == '/' || (n >= 2 && path[n - 1] == '.' && path[n - 2] == '/') {
        part_end(path, n - 1)
    } else {
        n
    }
}

/// Where the part of a path begins that ends at `n`: behind a slash, or where the path begins.
pub open spec fn part_start(path: Seq<char>, n: int) -> int
    decreases n,
{
    if n <= 0 {
        0
    } else if path[n - 1] == '/' {
        n
    } else {
        part_start(path, n - 1)
    }
}

/// Where the extension of the part from `start` to `end` begins, looked for before `n`: at its last
/// dot, but for one that the part begins with. At the end of the part where it has none.
pub open spec fn stem_end(path: Seq<char>, start: int, end: int, n: int) -> int
    decreases n - start,
{
    if n <= start + 1 {
        end
    } else if path[n - 1] == '.' {
        n - 1
    } else {
        stem_end(path, start, end, n - 1)
    }
}

/// A path whose last part ends in `ending`, in place of its extension. A path that ends in no name,
/// but in a step to where it is or one up, stays as it is.
pub open spec fn with_ending(path: Seq<char>, ending: Seq<char>) -> Seq<char> {
    let end = part_end(path, path.len() as int);
    let start = part_start(path, end);
    let part = path.subrange(start, end);
    if part.len() == 0 || part == seq!['.'] || part == seq!['.', '.'] {
        path
    } else {
        path.take(stem_end(path, start, end, end)) + ending
    }
}

/// The full path of a request file: in the directory of the data, and as a database.
pub open spec fn full_path_text(data_dir: Seq<char>, name: Seq<char>) -> Seq<char> {
    with_ending(joined_path(data_dir, name), DATA_FILE_ENDING@)
}

fn join_path(dir: &str, path: &str) -> (r: String)
    ensures
        r@ == joined_path(dir@, path@),
{
    let head = chars_of(path);
    if head.len() > 0 && head[0] == '/' {
        return path.to_owned();
    }
    let parts = chars_of(dir);
    let mut r = dir.to_owned();
    if parts.len() > 0 && parts[parts.len() - 1] != '/' {
        r.push('/');
    }
    r.append(path);
    r
}

proof fn lemma_part(path: Seq<char>, n: int)
    requires
        n <= path.len(),
    ensures
        0 <= part_end(path, n),
        n >= 0 ==> part_end(path, n) <= n,
        0 <= part_start(path, n),
        n >= 0 ==> part_start(path, n) <= n,
    decreases n,
{
    if n > 0 {
        lemma_part(path, n - 1);
    }
}

fn put_ending(path: &str, ending: &str) -> (r: String)
    ensures
        r@ == with_ending(path@, ending@),
{
    let chars = chars_of(path);
    let ghost whole = path@;
    let mut end: usize = chars.len();
    while end > 0 && (chars[end - 1] == '/' || (end >= 2 && chars[end - 1] == '.' && chars[end - 2]
        == '/'))
        invariant
            end <= chars@.len(),
            chars@ == whole,
            part_end(whole, whole.len() as int) == part_end(whole, end as int),
        decreases end,
    {
        end -= 1;
    }
    let mut start: usize = end;
    while start > 0 && chars[start - 1] != '/'
        invariant
            start <= end <= chars@.len(),
            chars@ == whole,
            part_start(whole, end as int) == part_start(whole, start as int),
        decreases start,
    {
        start -= 1;
    }
    let ghost part = whole.subrange(start as int, end as int);
    let length: usize = end - start;
    let here = length == 1 && chars[start] == '.';
    let up = length == 2 && chars[start] == '.' && chars[start + 1] == '.';
    assert(here == (part == seq!['.'])) by {
        assert(part.len() == 1 && part[0] == '.' ==> part =~= seq!['.']);
    }
    assert(up == (part == seq!['.', '.'])) by {
        assert(part.len() == 2 && part[0] == '.' && part[1] == '.' ==> part =~= seq!['.', '.']);
    }
    if length == 0 || here || up {
        return path.to_owned();
    }
    let mut n: usize = end;
    while n > start + 1 && chars[n - 1] != '.'
        invariant
            start < n <= end <= chars@.len(),
            chars@ == whole,
            stem_end(whole, start as int, end as int, end as int) == stem_end(
                whole,
                start as int,
                end as int,
                n as int,
            ),
        decreases n,
    {
        n -= 1;
    }
    let cut: usize = if n > start + 1 {
        n - 1
    } else {
        end
    };
    let mut r = text_of(&chars, 0, cut);
    assert(r@ =~= whole.take(cut as int));
    r.append(ending);
    r
}

/// The full path of a request file.
pub fn full_path(data_dir: &str, name: &str) -> (r: String)
    ensures
        r@ == full_path_text(data_dir@, name@),
{
    let path = join_path(data_dir, name);
    put_ending(path.as_str(), DATA_FILE_ENDING)
}

/// The parts of a path are found from its characters up to there.
proof fn lemma_part_start(a: Seq<char>, b: Seq<char>, n: int, m: int)
    requires
        0 <= n <= m,
        n <= a.len(),
        m <= b.len(),
        a.take(n) == b.take(n),
        forall|i: int| n <= i < m ==> b[i] != '/',
    ensures
        part_start(b, m) == part_start(a, n),
    decreases m,
{
    if m > n {
        lemma_part_start(a, b, n, m - 1);
        assert(b[m - 1] != '/');
    } else if n > 0 {
        assert(a.take(n)[n - 1] == a[n - 1]);
        assert(b.take(n)[n - 1] == b[n - 1]);
        if a[n - 1] != '/' {
            assert(a.take(n - 1) =~= a.take(n).take(n - 1));
            assert(b.take(n - 1) =~= b.take(n).take(n - 1));
            lemma_part_start(a, b, n - 1, m - 1);
        }
    }
}

/// There is no slash behind the beginning of a part.
proof fn lemma_no_slash(path: Seq<char>, n: int)
    requires
        0 <= n <= path.len(),
    ensures
        forall|i: int| part_start(path, n) <= i < n ==> path[i] != '/',
    decreases n,
{
    if n > 0 && path[n - 1] != '/' {
        lemma_no_slash(path, n - 1);
    }
}

proof fn lemma_stem_end(path: Seq<char>, start: int, end: int, n: int)
    requires
        0 <= start < n <= end <= path.len(),
    ensures
        start < stem_end(path, start, end, n) <= end,
    decreases n,
{
    if n > start + 1 && path[n - 1] != '.' {
        lemma_stem_end(path, start, end, n - 1);
    }
}

/// The last dot of a path is where its ending begins.
proof fn lemma_last_dot(path: Seq<char>, start: int, end: int, n: int, dot: int)
    requires
        0 <= start < dot < n <= end <= path.len(),
        path[dot] == '.',
        forall|i: int| dot < i < n ==> path[i] != '.',
    ensures
        stem_end(path, start, end, n) == dot,
    decreases n,
{
    if n - 1 != dot {
        lemma_last_dot(path, start, end, n - 1, dot);
    }
}

/// What ends as a request file does ends so where the ending is put again.
proof fn lemma_ending_stays(path: Seq<char>)
    ensures
        with_ending(with_ending(path, DATA_FILE_ENDING@), DATA_FILE_ENDING@) == with_ending(
            path,
            DATA_FILE_ENDING@,
        ),
{
    let ending = DATA_FILE_ENDING@;
    reveal_strlit(".sqlite");
    assert(ending == ".sqlite"@);
    let end = part_end(path, path.len() as int);
    let start = part_start(path, end);
    let part = path.subrange(start, end);
    lemma_part(path, path.len() as int);
    lemma_part(path, end);
    if !(part.len() == 0 || part == seq!['.'] || part == seq!['.', '.']) {
        lemma_stem_end(path, start, end, end);
        lemma_no_slash(path, end);
        let cut = stem_end(path, start, end, end);
        let after = path.take(cut) + ending;
        let n = after.len() as int;
        assert forall|i: int| cut <= i < n implies after[i] == ending[i - cut] by {}
        assert(part_end(after, n) == n);
        lemma_same_start(path, cut, end);
        assert(after.take(cut) =~= path.take(cut));
        lemma_part_start(path, after, cut, n);
        assert(after.subrange(start, n).len() > 2);
        lemma_last_dot(after, start, n, n, cut);
        assert(after.take(cut) + ending =~= after);
    }
}

/// A part begins where it does wherever in it one looks from.
proof fn lemma_same_start(path: Seq<char>, n: int, m: int)
    requires
        0 <= n <= m <= path.len(),
        part_start(path, m) <= n,
    ensures
        part_start(path, n) == part_start(path, m),
    decreases m,
{
    if n < m {
        lemma_no_slash(path, m);
        lemma_part(path, m);
        assert(path[m - 1] != '/');
        lemma_same_start(path, n, m - 1);
    }
}

/// A request file that has its full path keeps it, on this node and on any other.
pub proof fn lemma_full_path_stays(data_dir: Seq<char>, other_dir: Seq<char>, name: Seq<char>)
    requires
        data_dir.len() > 0,
        data_dir[0] == '/',
    ensures
        full_path_text(other_dir, full_path_text(data_dir, name)) == full_path_text(data_dir, name),
{
    let joined = joined_path(data_dir, name);
    let path = full_path_text(data_dir, name);
    let end = part_end(joined, joined.len() as int);
    let start = part_start(joined, end);
    lemma_part(joined, joined.len() as int);
    lemma_part(joined, end);
    if path != joined {
        lemma_stem_end(joined, start, end, end);
        assert(path[0] == joined[0]);
    }
    lemma_ending_stays(joined);
}

/// The full path of a name without slashes and dots: the directory, the name and the ending.
pub proof fn lemma_full_path(data_dir: Seq<char>, name: Seq<char>)
    requires
        data_dir.len() > 0,
        data_dir.last() != '/',
        name.len() > 0,
        !name.contains('/'),
        !name.contains('.'),
    ensures
        full_path_text(data_dir, name) == data_dir + seq!['/'] + name + DATA_FILE_ENDING@,
{
    assert(name.contains(name[0]));
    let path = joined_path(data_dir, name);
    let head = data_dir + seq!['/'];
    let n = path.len() as int;
    let start = head.len() as int;
    assert(path == head + name);
    assert forall|i: int| start <= i < n implies path[i] != '/' && path[i] != '.' by {
        assert(name.contains(name[i - start]));
    }
    assert(part_end(path, n) == n);
    assert(path.take(start) =~= head.take(start));
    lemma_part_start(head, path, start, n);
    assert(part_start(head, start) == start);
    assert(path.subrange(start, n) =~= name);
    assert(name != seq!['.'] && name != seq!['.', '.']) by {
        assert(name[0] != '.');
    }
    lemma_no_dot(path, start, n, n);
    assert(path.take(n) =~= path);
}

proof fn lemma_no_dot(path: Seq<char>, start: int, end: int, n: int)
    requires
        0 <= start < n <= end <= path.len(),
        forall|i: int| start <= i < n ==> path[i] != '.',
    ensures
        stem_end(path, start, end, n) == end,
    decreases n,
{
    if n > start + 1 {
        lemma_no_dot(path, start, end, n - 1);
    }
}

} // verus!
