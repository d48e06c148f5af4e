//! Structural paths and the relativizer that both archive walks share.
//!
//! A path is a sequence of components. Nothing here touches the file system,
//! so every function is safe on paths that no longer exist.

use crate::text::chars_of;
use vstd::prelude::*;

verus! {

/// One structural component of a path.
#[derive(Debug)]
pub enum PathPart {
    /// A volume or share prefix.
    Prefix(String),
    /// The root directory marker.
    RootDir,
    /// A reference to the current directory.
    CurDir,
    /// A reference to the parent directory.
    ParentDir,
    /// An ordinary file or directory name.
    Normal(String),
}

/// The mathematical value of a [`PathPart`].
pub ghost enum PartModel {
    Prefix(Seq<char>),
    RootDir,
    CurDir,
    ParentDir,
    Normal(Seq<char>),
}

impl View for PathPart {
    type V = PartModel;

    open spec fn view(&self) -> PartModel {
        match *self {
            PathPart::Prefix(text) => PartModel::Prefix(text@),
            PathPart::RootDir => PartModel::RootDir,
            PathPart::CurDir => PartModel::CurDir,
            PathPart::ParentDir => PartModel::ParentDir,
            PathPart::Normal(name) => PartModel::Normal(name@),
        }
    }
}

/// The mathematical value of a whole path: the values of its components, in order.
pub open spec fn path_model(parts: Seq<PathPart>) -> Seq<PartModel> {
    Seq::new(parts.len(), |i: int| parts[i]@)
}

/// Number of leading positions at which `a` and `b` hold the same component.
pub open spec fn shared_prefix_len(a: Seq<PartModel>, b: Seq<PartModel>) -> nat
    decreases a.len(),
{
    if a.len() == 0 || b.len() == 0 || a[0] != b[0] {
        0
    } else {
        1 + shared_prefix_len(a.drop_first(), b.drop_first())
    }
}

/// `current` without the components it shares, position by position, with `root`.
pub open spec fn relative_model(root: Seq<PartModel>, current: Seq<PartModel>) -> Seq<PartModel> {
    current.skip(shared_prefix_len(root, current) as int)
}

/// The part that the stretch of `text` from `start` up to `end` stands
/// for, where the stretch lies between two slashes or an end of `text`.
/// An empty stretch stands for nothing, and so does `.` unless `text`
/// begins with it; `..` stands for the parent directory; anything else is
/// a name.
pub open spec fn segment_part(text: Seq<char>, start: int, end: int) -> Seq<PartModel> {
    let segment = text.subrange(start, end);
    if segment.len() == 0 {
        Seq::empty()
    } else if segment == seq!['.'] {
        if start == 0 {
            seq![PartModel::CurDir]
        } else {
            Seq::empty()
        }
    } else if segment == seq!['.', '.'] {
        seq![PartModel::ParentDir]
    } else {
        seq![PartModel::Normal(segment)]
    }
}

/// Where the stretch begins that position `at` of `text` lies in: behind
/// the last slash before `at`, or at the start.
pub open spec fn segment_start(text: Seq<char>, at: int) -> int
    decreases at,
{
    if at <= 0 {
        0
    } else if text[at - 1] == '/' {
        at
    } else {
        segment_start(text, at - 1)
    }
}

/// The parts of the stretches of `text` that a slash before `upto` ends.
pub open spec fn closed_parts(text: Seq<char>, upto: int) -> Seq<PartModel>
    decreases upto,
{
    if upto <= 0 {
        Seq::empty()
    } else if text[upto - 1] == '/' {
        closed_parts(text, upto - 1) + segment_part(text, segment_start(text, upto - 1), upto - 1)
    } else {
        closed_parts(text, upto - 1)
    }
}

/// The path that `text` spells, with `/` between its parts: the root
/// directory where `text` begins with a slash, then the part of each
/// stretch between slashes.
pub open spec fn text_parts(text: Seq<char>) -> Seq<PartModel> {
    (if text.len() > 0 && text[0] == '/' {
        seq![PartModel::RootDir]
    } else {
        Seq::empty()
    }) + closed_parts(text, text.len() as int) + segment_part(
        text,
        segment_start(text, text.len() as int),
        text.len() as int,
    )
}

/// Whether a path begins at a root or a prefix, so that nothing can be put
/// in front of it.
pub open spec fn is_anchored(parts: Seq<PartModel>) -> bool {
    parts.len() > 0 && (parts[0] is RootDir || parts[0] is Prefix)
}

/// `back` read from the directory `front`: `front` followed by `back`,
/// unless `back` is anchored and stands alone.
pub open spec fn joined_parts(front: Seq<PartModel>, back: Seq<PartModel>) -> Seq<PartModel> {
    if is_anchored(back) {
        back
    } else {
        front + back
    }
}

/// `relative_model`, read from the directory that `base` spells.
pub open spec fn rebased_model(
    base: Seq<char>,
    root: Seq<PartModel>,
    current: Seq<PartModel>,
) -> Seq<PartModel> {
    joined_parts(text_parts(base), relative_model(root, current))
}

/// The archive name of a path: its ordinary names joined by `/`; every other
/// component is left out.
pub open spec fn joined_names(parts: Seq<PartModel>) -> Seq<char>
    decreases parts.len(),
{
    if parts.len() == 0 {
        Seq::empty()
    } else {
        let head = joined_names(parts.drop_last());
        match parts.last() {
            PartModel::Normal(name) => if head.len() == 0 {
                name
            } else {
                head + seq!['/'] + name
            },
            _ => head,
        }
    }
}

impl PathPart {
    /// Whether two components have the same value.
    pub fn same_as(&self, other: &PathPart) -> (same: bool)
        ensures
            same == (self@ == other@),
    {
        match self {
            PathPart::Prefix(a) => match other {
                PathPart::Prefix(b) => *a == *b,
                _ => false,
            },
            PathPart::RootDir => match other {
                PathPart::RootDir => true,
                _ => false,
            },
            PathPart::CurDir => match other {
                PathPart::CurDir => true,
                _ => false,
            },
            PathPart::ParentDir => match other {
                PathPart::ParentDir => true,
                _ => false,
            },
            PathPart::Normal(a) => match other {
                PathPart::Normal(b) => *a == *b,
                _ => false,
            },
        }
    }
}

impl Clone for PathPart {
    fn clone(&self) -> (copy: Self)
        ensures
            copy@ == self@,
    {
        match self {
            PathPart::Prefix(text) => PathPart::Prefix(text.clone()),
            PathPart::RootDir => PathPart::RootDir,
            PathPart::CurDir => PathPart::CurDir,
            PathPart::ParentDir => PathPart::ParentDir,
            PathPart::Normal(name) => PathPart::Normal(name.clone()),
        }
    }
}

/// Copies a path, component by component.
pub fn copy_path(parts: &Vec<PathPart>) -> (copy: Vec<PathPart>)
    ensures
        path_model(copy@) == path_model(parts@),
{
    let mut copy: Vec<PathPart> = Vec::new();
    let mut i: usize = 0;
    while i < parts.len()
        invariant
            i <= parts.len(),
            copy@.len() == i,
            forall|j: int| 0 <= j < i ==> copy@[j]@ == parts@[j]@,
        decreases parts.len() - i,
    {
        copy.push(parts[i].clone());
        i += 1;
    }
    proof {
        assert(path_model(copy@) =~= path_model(parts@));
    }
    copy
}

/// The shared prefix is the longest run of leading positions on which the two
/// paths agree: it fits in both, every position below it agrees, and it stops
/// only at the end of one path or at a disagreement.
pub proof fn lemma_shared_prefix_len(a: Seq<PartModel>, b: Seq<PartModel>)
    ensures
        shared_prefix_len(a, b) <= a.len(),
        shared_prefix_len(a, b) <= b.len(),
        forall|i: int| 0 <= i < shared_prefix_len(a, b) ==> a[i] == b[i],
        shared_prefix_len(a, b) == a.len() || shared_prefix_len(a, b) == b.len() || a[shared_prefix_len(
            a,
            b,
        ) as int] != b[shared_prefix_len(a, b) as int],
    decreases a.len(),
{
    if a.len() == 0 || b.len() == 0 || a[0] != b[0] {
    } else {
        let a1 = a.drop_first();
        let b1 = b.drop_first();
        lemma_shared_prefix_len(a1, b1);
        let k = shared_prefix_len(a1, b1) as int;
        assert forall|i: int| 0 <= i < k + 1 implies a[i] == b[i] by {
            if i > 0 {
                assert(a[i] == a1[i - 1]);
                assert(b[i] == b1[i - 1]);
            }
        }
        if k < a1.len() && k < b1.len() {
            assert(a[k + 1] == a1[k]);
            assert(b[k + 1] == b1[k]);
        }
    }
}

/// Any length with those three properties is the shared prefix length.
pub proof fn lemma_shared_prefix_unique(a: Seq<PartModel>, b: Seq<PartModel>, k: nat)
    requires
        k <= a.len(),
        k <= b.len(),
        forall|i: int| 0 <= i < k ==> a[i] == b[i],
        k == a.len() || k == b.len() || a[k as int] != b[k as int],
    ensures
        shared_prefix_len(a, b) == k,
{
    lemma_shared_prefix_len(a, b);
    let n = shared_prefix_len(a, b);
    if n < k {
        assert(a[n as int] == b[n as int]);
    } else if k < n {
        assert(a[k as int] == b[k as int]);
    }
}

/// Computes `current` relative to `root`.
///
/// The two paths are walked in lock-step. Components are dropped while they
/// agree with `root` at the same position; from the first position past the
/// end of `root`, or the first disagreement, every remaining component of
/// `current` is kept in order.
pub fn make_relative_path(root: &Vec<PathPart>, current: &Vec<PathPart>) -> (relative: Vec<PathPart>)
    ensures
        path_model(relative@) == relative_model(path_model(root@), path_model(current@)),
{
    let mut relative: Vec<PathPart> = Vec::new();
    append_relative(&mut relative, root, current);
    proof {
        assert(path_model(relative@) =~= path_model(Seq::empty()) + relative_model(
            path_model(root@),
            path_model(current@),
        ));
        assert(path_model(Seq::<PathPart>::empty()) =~= Seq::<PartModel>::empty());
    }
    relative
}

/// Appends to `parts` the part that the stretch of `text` from `start` up to
/// `end` stands for.
fn push_segment(parts: &mut Vec<PathPart>, text: &str, chars: &Vec<char>, start: usize, end: usize)
    requires
        start <= end <= chars@.len(),
        chars@ == text@,
    ensures
        path_model(final(parts)@) == path_model(old(parts)@) + segment_part(
            text@,
            start as int,
            end as int,
        ),
{
    let ghost before = path_model(parts@);
    let ghost segment = text@.subrange(start as int, end as int);
    let length: usize = end - start;
    if length == 0 {
        proof {
            assert(before + Seq::<PartModel>::empty() =~= before);
        }
        return ;
    }
    if length == 1 && chars[start] == '.' {
        proof {
            assert(segment =~= seq!['.']);
            assert(before + Seq::<PartModel>::empty() =~= before);
        }
        if start == 0 {
            parts.push(PathPart::CurDir);
            proof {
                assert(path_model(parts@) =~= before + seq![PartModel::CurDir]);
            }
        }
        return ;
    }
    if length == 2 && chars[start] == '.' && chars[start + 1] == '.' {
        parts.push(PathPart::ParentDir);
        proof {
            assert(segment =~= seq!['.', '.']);
            assert(seq!['.', '.'].len() == 2);
            assert(path_model(parts@) =~= before + seq![PartModel::ParentDir]);
        }
        return ;
    }
    let name = text.substring_char(start, end).to_owned();
    parts.push(PathPart::Normal(name));
    proof {
        if segment == seq!['.'] {
            assert(segment[0] == '.');
        }
        if segment == seq!['.', '.'] {
            assert(segment[0] == '.' && segment[1] == '.');
        }
        assert(path_model(parts@) =~= before + seq![PartModel::Normal(segment)]);
    }
}

/// Splits `text` into the parts of the path that it spells, with `/`
/// between them.
pub fn parts_of(text: &str) -> (parts: Vec<PathPart>)
    ensures
        path_model(parts@) == text_parts(text@),
{
    let chars = chars_of(text);
    let n: usize = chars.len();
    let mut parts: Vec<PathPart> = Vec::new();
    if n > 0 && chars[0] == '/' {
        parts.push(PathPart::RootDir);
    }
    let ghost front = path_model(parts@);
    proof {
        assert(front =~= if text@.len() > 0 && text@[0] == '/' {
            seq![PartModel::RootDir]
        } else {
            Seq::<PartModel>::empty()
        });
        assert(front + Seq::<PartModel>::empty() =~= front);
    }
    let mut start: usize = 0;
    let mut i: usize = 0;
    while i < n
        invariant
            i <= n,
            start <= i,
            chars@ == text@,
            n == chars@.len(),
            start == segment_start(text@, i as int),
            path_model(parts@) == front + closed_parts(text@, i as int),
        decreases n - i,
    {
        if chars[i] == '/' {
            let ghost closed = closed_parts(text@, i as int);
            push_segment(&mut parts, text, &chars, start, i);
            start = i + 1;
            proof {
                assert(front + closed + segment_part(text@, segment_start(text@, i as int), i as int)
                    =~= front + (closed + segment_part(
                    text@,
                    segment_start(text@, i as int),
                    i as int,
                )));
            }
        }
        i += 1;
    }
    push_segment(&mut parts, text, &chars, start, n);
    parts
}

/// Whether a path begins at a root or a prefix.
pub fn begins_anchored(parts: &Vec<PathPart>) -> (anchored: bool)
    ensures
        anchored == is_anchored(path_model(parts@)),
{
    if parts.len() == 0 {
        return false;
    }
    match &parts[0] {
        PathPart::RootDir => true,
        PathPart::Prefix(_) => true,
        _ => false,
    }
}

/// Computes `current` relative to `root`, read from the directory that
/// `base` spells: the parts of `base`, then the relative path. A relative
/// path that is anchored stands alone, and an empty `base` adds nothing.
pub fn make_relative_path_with_base(
    base: &str,
    root: &Vec<PathPart>,
    current: &Vec<PathPart>,
) -> (relative: Vec<PathPart>)
    ensures
        path_model(relative@) == rebased_model(base@, path_model(root@), path_model(current@)),
{
    let relative = make_relative_path(root, current);
    if begins_anchored(&relative) {
        return relative;
    }
    let mut placed = parts_of(base);
    append_relative(&mut placed, root, current);
    placed
}

/// Appends to `out` the components of `current` that follow its shared prefix with `root`.
fn append_relative(out: &mut Vec<PathPart>, root: &Vec<PathPart>, current: &Vec<PathPart>)
    ensures
        path_model(final(out)@) == path_model(old(out)@) + relative_model(
            path_model(root@),
            path_model(current@),
        ),
{
    let ghost r = path_model(root@);
    let ghost c = path_model(current@);
    let mut i: usize = 0;
    while i < current.len() && i < root.len() && root[i].same_as(&current[i])
        invariant
            i <= current.len(),
            i <= root.len(),
            r == path_model(root@),
            c == path_model(current@),
            forall|j: int| 0 <= j < i ==> r[j] == c[j],
        decreases current.len() - i,
    {
        i += 1;
    }
    proof {
        lemma_shared_prefix_unique(r, c, i as nat);
    }
    let ghost start = i;
    let ghost before = path_model(out@);
    while i < current.len()
        invariant
            start <= i <= current.len(),
            c == path_model(current@),
            path_model(out@) == before + c.subrange(start as int, i as int),
        decreases current.len() - i,
    {
        let ghost grown = path_model(out@);
        let part = current[i].clone();
        out.push(part);
        i += 1;
        proof {
            assert(path_model(out@) =~= grown.push(c[i - 1]));
            assert(c.subrange(start as int, i as int) =~= c.subrange(start as int, i - 1).push(
                c[i - 1],
            ));
            assert(path_model(out@) =~= before + c.subrange(start as int, i as int));
        }
    }
    proof {
        assert(c.subrange(start as int, i as int) =~= c.skip(start as int));
    }
}

/// Builds the archive name of a path: its ordinary names joined by `/`.
pub fn entry_name(parts: &Vec<PathPart>) -> (name: String)
    ensures
        name@ == joined_names(path_model(parts@)),
{
    let mut name = String::new();
    let mut i: usize = 0;
    let ghost model = path_model(parts@);
    proof {
        assert(model.take(0) =~= Seq::<PartModel>::empty());
    }
    while i < parts.len()
        invariant
            i <= parts.len(),
            model == path_model(parts@),
            name@ == joined_names(model.take(i as int)),
        decreases parts.len() - i,
    {
        proof {
            assert(model.take(i + 1).drop_last() =~= model.take(i as int));
            assert(model.take(i + 1).last() == parts[i as int]@);
        }
        match &parts[i] {
            PathPart::Normal(part) => {
                if !name.as_str().is_empty() {
                    name.append("/");
                    proof {
                        reveal_strlit("/");
                        assert("/"@ =~= seq!['/']);
                    }
                }
                name.append(part.as_str());
            },
            _ => {},
        }
        i += 1;
    }
    proof {
        assert(model.take(i as int) =~= model);
    }
    name
}

/// A path that continues `root` is relative to it by exactly the continuation.
pub proof fn lemma_relative_inside_root(root: Seq<PartModel>, rest: Seq<PartModel>)
    ensures
        relative_model(root, root + rest) == rest,
{
    let current = root + rest;
    assert forall|i: int| 0 <= i < root.len() implies root[i] == current[i] by {}
    lemma_shared_prefix_unique(root, current, root.len());
    assert(current.skip(root.len() as int) =~= rest);
}

/// A path that disagrees with `root` at the very first position keeps all of
/// its components: nothing is consumed.
pub proof fn lemma_relative_outside_root(root: Seq<PartModel>, current: Seq<PartModel>)
    requires
        root.len() == 0 || current.len() == 0 || root[0] != current[0],
    ensures
        relative_model(root, current) == current,
{
    assert(current.skip(0) =~= current);
}

/// A text without a slash that is neither empty nor `.` nor `..` spells a
/// single name: itself.
pub proof fn lemma_plain_text_is_one_name(text: Seq<char>)
    requires
        text.len() > 0,
        forall|i: int| 0 <= i < text.len() ==> text[i] != '/',
        text != seq!['.'],
        text != seq!['.', '.'],
    ensures
        text_parts(text) == seq![PartModel::Normal(text)],
{
    lemma_no_slash_no_closed_part(text, text.len() as int);
    assert(text.subrange(0, text.len() as int) =~= text);
    assert(text_parts(text) =~= seq![PartModel::Normal(text)]);
}

/// Before the first slash of a text no stretch has ended.
proof fn lemma_no_slash_no_closed_part(text: Seq<char>, upto: int)
    requires
        0 <= upto <= text.len(),
        forall|i: int| 0 <= i < upto ==> text[i] != '/',
    ensures
        closed_parts(text, upto) == Seq::<PartModel>::empty(),
        segment_start(text, upto) == 0,
    decreases upto,
{
    if upto > 0 {
        lemma_no_slash_no_closed_part(text, upto - 1);
    }
}

/// A path read from the empty directory is the path itself.
pub proof fn lemma_rebase_on_empty_base(root: Seq<PartModel>, current: Seq<PartModel>)
    ensures
        rebased_model(Seq::empty(), root, current) == relative_model(root, current),
{
    let none = Seq::<char>::empty();
    assert(text_parts(none) =~= Seq::<PartModel>::empty());
    assert(Seq::<PartModel>::empty() + relative_model(root, current) =~= relative_model(
        root,
        current,
    ));
}

} // verus!
