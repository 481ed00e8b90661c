//! File paths. A path is text whose parts are separated by slashes.

use vstd::prelude::*;
use vstd::string::*;

use crate::text::chars_of;

verus! {

broadcast use vstd::string::group_string_axioms;

/// The parts of `s` between slashes, empty ones too; one part if there is no
/// slash.
pub open spec fn segments(s: Seq<char>) -> Seq<Seq<char>>
    decreases s.len(),
{
    if s.len() == 0 {
        seq![Seq::empty()]
    } else {
        let before = segments(s.drop_last());
        if s.last() == '/' {
            before.push(Seq::empty())
        } else {
            before.drop_last().push(before.last().push(s.last()))
        }
    }
}

/// Whether a segment names a file or a directory: neither empty nor the
/// directory itself nor its parent.
pub open spec fn is_normal(segment: Seq<char>) -> bool {
    segment != Seq::<char>::empty() && segment != seq!['.'] && segment != seq!['.', '.']
}

/// `base` with `part` below it: an absolute `part` takes the place of `base`,
/// and another is set off by a slash, unless `base` is empty or has one at its
/// end.
pub open spec fn pushed(base: Seq<char>, part: Seq<char>) -> Seq<char> {
    if part.len() > 0 && part[0] == '/' {
        part
    } else if base.len() > 0 && base.last() != '/' {
        base.push('/') + part
    } else {
        base + part
    }
}

/// `root` with the normal ones of `parts` below it, one below the other.
pub open spec fn below(root: Seq<char>, parts: Seq<Seq<char>>) -> Seq<char>
    decreases parts.len(),
{
    if parts.len() == 0 {
        root
    } else if is_normal(parts.last()) {
        pushed(below(root, parts.drop_last()), parts.last())
    } else {
        below(root, parts.drop_last())
    }
}

/// The file below `root` that the path of a request names.
pub open spec fn file_path_of(root: Seq<char>, path: Seq<char>) -> Seq<char> {
    below(root, segments(path))
}

/// What comes after the last slash.
pub open spec fn last_segment(path: Seq<char>) -> Seq<char> {
    segments(path).last()
}

proof fn lemma_segments(s: Seq<char>)
    ensures
        segments(s).len() > 0,
        forall|i: int, j: int|
            0 <= i < segments(s).len() && 0 <= j < segments(s)[i].len() ==> #[trigger] segments(s)[i][j]
                != '/',
    decreases s.len(),
{
    if s.len() > 0 {
        lemma_segments(s.drop_last());
        let before = segments(s.drop_last());
        let all = segments(s);
        assert forall|i: int, j: int|
            0 <= i < all.len() && 0 <= j < all[i].len() implies #[trigger] all[i][j] != '/' by {
            if i < all.len() - 1 {
                assert(all[i] == before[i]);
                assert(before[i][j] != '/');
            } else if s.last() != '/' {
                if j < all[i].len() - 1 {
                    assert(all[i][j] == before[before.len() - 1][j]);
                }
            }
        }
    }
}

/// Appends `part` to the path `base`.
fn push_path(base: &mut String, part: &str)
    ensures
        final(base)@ == pushed(old(base)@, part@),
{
    let n: usize = part.unicode_len();
    if n > 0 && part.get_char(0) == '/' {
        *base = part.to_owned();
        return;
    }
    let m: usize = base.as_str().unicode_len();
    if m > 0 && base.as_str().get_char(m - 1) != '/' {
        proof {
            reveal_strlit("/");
        }
        base.append("/");
        assert(base@ =~= old(base)@.push('/'));
        assert(pushed(old(base)@, part@) =~= old(base)@ + seq!['/'] + part@);
    }
    base.append(part);
}

fn check_normal(segment: &str) -> (r: bool)
    ensures
        r == is_normal(segment@),
{
    let chars = chars_of(segment);
    let n: usize = chars.len();
    let r = !(n == 0 || (n == 1 && chars[0] == '.') || (n == 2 && chars[0] == '.' && chars[1]
        == '.'));
    proof {
        if n == 0 {
            assert(segment@ =~= Seq::empty());
        } else if n == 1 && segment@[0] == '.' {
            assert(segment@ =~= seq!['.']);
        } else if n == 2 && segment@[0] == '.' && segment@[1] == '.' {
            assert(segment@ =~= seq!['.', '.']);
        }
    }
    r
}

/// The file below `root` that the path of a request names.
pub fn file_path(root: &str, path: &str) -> (r: String)
    ensures
        r@ == file_path_of(root@, path@),
{
    let chars = chars_of(path);
    let mut r: String = root.to_owned();
    let mut start: usize = 0;
    let mut i: usize = 0;
    let ghost mut done: Seq<Seq<char>> = Seq::empty();
    assert(path@.take(0) =~= Seq::empty());
    assert(path@.subrange(0, 0) =~= Seq::empty());
    assert(seq![Seq::<char>::empty()] =~= done.push(path@.subrange(0, 0)));
    while i < chars.len()
        invariant
            chars@ == path@,
            start <= i <= chars@.len(),
            segments(path@.take(i as int)) == done.push(path@.subrange(start as int, i as int)),
            r@ == below(root@, done),
        decreases chars@.len() - i,
    {
        assert(path@.take(i + 1).drop_last() =~= path@.take(i as int));
        let ghost current = path@.subrange(start as int, i as int);
        assert(done.push(current).drop_last() =~= done);
        if chars[i] == '/' {
            let segment = path.substring_char(start, i);
            if check_normal(segment) {
                push_path(&mut r, segment);
            }
            proof {
                done = done.push(current);
            }
            start = i + 1;
            assert(path@.subrange(start as int, i + 1) =~= Seq::empty());
        } else {
            assert(path@.subrange(start as int, i + 1) =~= current.push(chars[i as int]));
        }
        i = i + 1;
    }
    let ghost current = path@.subrange(start as int, i as int);
    let segment = path.substring_char(start, i);
    if check_normal(segment) {
        push_path(&mut r, segment);
    }
    assert(path@.take(i as int) =~= path@);
    assert(done.push(current).drop_last() =~= done);
    r
}

/// If the path is a directory, appends the index file name.
pub fn autoindex(path: String, is_dir: bool, index: &str) -> (r: String)
    ensures
        r@ == if is_dir {
            pushed(path@, index@)
        } else {
            path@
        },
        !is_dir ==> r@ == path@,
        is_dir && index@.len() > 0 && index@[0] == '/' ==> r@ == index@,
        is_dir && !(index@.len() > 0 && index@[0] == '/') ==> r@ == if path@.len() == 0
            || path@.last() == '/' {
            path@ + index@
        } else {
            path@ + seq!['/'] + index@
        },
{
    if is_dir {
        let mut r = path;
        push_path(&mut r, index);
        r
    } else {
        path
    }
}

/// What comes after the last slash of `path`.
pub fn basename(path: &str) -> (r: String)
    ensures
        r@ == last_segment(path@),
        forall|i: int| 0 <= i < r@.len() ==> r@[i] != '/',
        r@.len() <= path@.len(),
        r@ == path@.skip(path@.len() - r@.len()),
        r@.len() < path@.len() ==> path@[path@.len() - r@.len() - 1] == '/',
{
    let chars = chars_of(path);
    let n: usize = chars.len();
    let mut start: usize = n;
    assert(path@.take(n as int) =~= path@);
    while start > 0 && chars[start - 1] != '/'
        invariant
            chars@ == path@,
            n == chars@.len(),
            start <= n,
            forall|k: int| start <= k < n ==> path@[k] != '/',
        decreases start,
    {
        start = start - 1;
    }
    proof {
        lemma_last_segment(path@, start as int);
        law_basename_is_one_segment(path@);
    }
    path.substring_char(start, n).to_owned()
}

proof fn lemma_last_segment(s: Seq<char>, start: int)
    requires
        0 <= start <= s.len(),
        start == 0 || s[start - 1] == '/',
        forall|k: int| start <= k < s.len() ==> s[k] != '/',
    ensures
        last_segment(s) == s.skip(start),
    decreases s.len(),
{
    lemma_segments(s);
    if s.len() == start {
        assert(s.skip(start) =~= Seq::empty());
    } else {
        lemma_last_segment(s.drop_last(), start);
        lemma_segments(s.drop_last());
        assert(s.skip(start) =~= s.drop_last().skip(start).push(s.last()));
    }
}

/// A file name out of a path has no slash in it.
pub proof fn law_basename_is_one_segment(path: Seq<char>)
    ensures
        forall|i: int| 0 <= i < last_segment(path).len() ==> #[trigger] last_segment(path)[i] != '/',
{
    lemma_segments(path);
}

proof fn lemma_segments_concat(a: Seq<char>, b: Seq<char>)
    requires
        forall|i: int| 0 <= i < b.len() ==> b[i] != '/',
    ensures
        segments(a + b) == segments(a).drop_last().push(segments(a).last() + b),
    decreases b.len(),
{
    lemma_segments(a);
    if b.len() == 0 {
        assert(a + b =~= a);
        assert(segments(a).last() + b =~= segments(a).last());
        assert(segments(a) =~= segments(a).drop_last().push(segments(a).last()));
    } else {
        lemma_segments_concat(a, b.drop_last());
        assert((a + b).drop_last() =~= a + b.drop_last());
        let before = segments(a + b.drop_last());
        assert(before.drop_last() =~= segments(a).drop_last());
        assert(before.last().push(b.last()) =~= segments(a).last() + b);
    }
}

/// Whether `file` is `root` itself or lies below it: after `root`, set off from
/// it by a slash, come names of files and directories, and nothing that stands
/// for a directory itself or its parent.
pub open spec fn is_below(root: Seq<char>, file: Seq<char>) -> bool {
    let tail = file.skip(root.len() as int);
    &&& root.is_prefix_of(file)
    &&& tail.len() == 0 || root.len() == 0 || root.last() == '/' || tail[0] == '/'
    &&& names_only(tail)
}

/// Whether every segment of `s` is empty or a name.
pub open spec fn names_only(s: Seq<char>) -> bool {
    forall|i: int|
        0 <= i < segments(s).len() ==> (#[trigger] segments(s)[i] == Seq::<char>::empty()
            || is_normal(segments(s)[i]))
}

/// Whether `s` is one segment, and a name.
pub open spec fn is_name(s: Seq<char>) -> bool {
    is_normal(s) && forall|i: int| 0 <= i < s.len() ==> s[i] != '/'
}

proof fn lemma_push_below(root: Seq<char>, base: Seq<char>, part: Seq<char>)
    requires
        is_below(root, base),
        is_name(part),
    ensures
        is_below(root, pushed(base, part)),
{
    let tail = base.skip(root.len() as int);
    let all = pushed(base, part);
    assert(base =~= root + tail);
    let front = if base.len() > 0 && base.last() != '/' {
        tail.push('/')
    } else {
        tail
    };
    assert(all =~= root + (front + part));
    let end = all.skip(root.len() as int);
    assert(end =~= front + part);
    assert(root =~= all.subrange(0, root.len() as int));
    lemma_segments(tail);
    if base.len() > 0 && base.last() != '/' {
        assert(front.drop_last() =~= tail);
        assert(segments(front) == segments(tail).push(Seq::empty()));
    } else if tail.len() > 0 {
        assert(tail.last() == base.last());
    } else if root.len() > 0 {
        assert(base.last() == root.last());
    }
    assert(segments(front).last() =~= Seq::empty());
    lemma_segments_concat(front, part);
    assert(segments(front).last() + part =~= part);
    assert forall|i: int| 0 <= i < segments(end).len() implies (#[trigger] segments(end)[i]
        == Seq::<char>::empty() || is_normal(segments(end)[i])) by {
        if i < segments(end).len() - 1 {
            assert(segments(end)[i] == segments(front)[i]);
            if i < segments(tail).len() {
                assert(segments(front)[i] == segments(tail)[i]);
            }
        }
    }
}

proof fn lemma_below(root: Seq<char>, parts: Seq<Seq<char>>)
    requires
        forall|i: int, j: int|
            0 <= i < parts.len() && 0 <= j < parts[i].len() ==> #[trigger] parts[i][j] != '/',
    ensures
        is_below(root, below(root, parts)),
    decreases parts.len(),
{
    if parts.len() == 0 {
        assert(root.skip(root.len() as int) =~= Seq::empty());
    } else {
        let front = parts.drop_last();
        let part = parts.last();
        assert forall|i: int, j: int|
            0 <= i < front.len() && 0 <= j < front[i].len() implies #[trigger] front[i][j]
            != '/' by {
            assert(parts[i][j] != '/');
        }
        lemma_below(root, front);
        assert forall|j: int| 0 <= j < part.len() implies part[j] != '/' by {
            assert(parts[parts.len() - 1][j] != '/');
        }
        if is_normal(part) {
            lemma_push_below(root, below(root, front), part);
        }
    }
}

/// No request leaves the root directory: the file that a path names is the
/// root or lies below it, and so does the index file in it, if that has a name
/// without slashes.
pub proof fn law_files_stay_below_root(root: Seq<char>, path: Seq<char>, index: Seq<char>)
    ensures
        is_below(root, file_path_of(root, path)),
        is_name(index) ==> is_below(root, pushed(file_path_of(root, path), index)),
{
    lemma_segments(path);
    lemma_below(root, segments(path));
    if is_name(index) {
        lemma_push_below(root, file_path_of(root, path), index);
    }
}

/// The file that a path names is found segment by segment: each name goes
/// below what the path before it names, and a segment that is empty, `.` or
/// `..` names nothing, wherever it stands. `front` is what stands before the
/// last slash, and `segment` what stands behind it.
pub proof fn law_file_path_by_segments(root: Seq<char>, front: Seq<char>, segment: Seq<char>)
    requires
        forall|i: int| 0 <= i < segment.len() ==> segment[i] != '/',
    ensures
        ({
            let skipped = segment.len() == 0 || segment == seq!['.'] || segment == seq!['.', '.'];
            let before = file_path_of(root, front);
            let file = file_path_of(root, front + seq!['/'] + segment);
            let alone = file_path_of(root, segment);
            if skipped {
                file == before && alone == root
            } else {
                &&& file == if before.len() == 0 || before.last() == '/' {
                    before + segment
                } else {
                    before + seq!['/'] + segment
                }
                &&& alone == if root.len() == 0 || root.last() == '/' {
                    root + segment
                } else {
                    root + seq!['/'] + segment
                }
            }
        }),
{
    let none = Seq::<char>::empty();
    let slashed = front + seq!['/'];
    assert(slashed.drop_last() =~= front);
    lemma_segments(front);
    assert(segments(slashed) == segments(front).push(none));
    lemma_segments_concat(slashed, segment);
    assert(none + segment =~= segment);
    assert(segments(slashed).drop_last() =~= segments(front));
    assert(segments(slashed + segment) == segments(front).push(segment));
    assert(segments(front).push(segment).drop_last() =~= segments(front));
    lemma_segments_concat(none, segment);
    assert(segments(none) == seq![none]);
    assert(segments(none).drop_last() =~= Seq::empty());
    assert(segments(none + segment) =~= seq![segment]);
    assert(seq![segment].drop_last() =~= Seq::empty());
    reveal_with_fuel(below, 2);
    if segment.len() == 0 {
        assert(segment =~= none);
    }
    let before = file_path_of(root, front);
    assert(before.push('/') + segment =~= before + seq!['/'] + segment);
    assert(root.push('/') + segment =~= root + seq!['/'] + segment);
}

/// Joining paths: an absolute part stands by itself, and another one follows
/// the base, behind exactly one slash unless the base is empty or has one.
pub proof fn law_joined_path(base: Seq<char>, part: Seq<char>)
    ensures
        part.len() > 0 && part[0] == '/' ==> pushed(base, part) == part,
        !(part.len() > 0 && part[0] == '/') ==> pushed(base, part) == if base.len() == 0
            || base.last() == '/' {
            base + part
        } else {
            base + seq!['/'] + part
        },
{
    assert(base.push('/') + part =~= base + seq!['/'] + part);
}

/// A file name out of a path is what stands behind its last slash.
pub proof fn law_basename(front: Seq<char>, name: Seq<char>)
    requires
        forall|i: int| 0 <= i < name.len() ==> name[i] != '/',
    ensures
        last_segment(front + seq!['/'] + name) == name,
        last_segment(name) == name,
{
    let path = front + seq!['/'] + name;
    lemma_last_segment(path, front.len() as int + 1);
    assert(path.skip(front.len() as int + 1) =~= name);
    lemma_last_segment(name, 0);
    assert(name.skip(0) =~= name);
}

} // verus!
