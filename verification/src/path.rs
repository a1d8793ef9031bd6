//! Unix paths as `std::path` reads them: a path is the list of its components.
//! Repeated separators and `.` components are normalised away, except for a
//! leading `.`; a trailing separator is ignored.
use vstd::prelude::*;

use crate::text::{chars_of, string_of};

verus! {

broadcast use vstd::seq::group_seq_axioms;

/// One component of a path.
#[derive(Debug)]
pub enum Component {
    /// The root `/` of an absolute path.
    RootDir,
    /// A leading `.`.
    CurDir,
    /// `..`.
    ParentDir,
    /// A file or directory name.
    Normal(String),
}

/// The specification form of a [`Component`].
pub enum Part {
    Root,
    Cur,
    Parent,
    Name(Seq<char>),
}

impl View for Component {
    type V = Part;

    open spec fn view(&self) -> Part {
        match self {
            Component::RootDir => Part::Root,
            Component::CurDir => Part::Cur,
            Component::ParentDir => Part::Parent,
            Component::Normal(s) => Part::Name(s@),
        }
    }
}

/// The views of a list of components.
pub open spec fn parts(v: Seq<Component>) -> Seq<Part> {
    Seq::new(v.len(), |i: int| v[i]@)
}

/// `p` split at every `/`, as `str::split('/')` splits it: never empty.
pub open spec fn split_slash(p: Seq<char>) -> Seq<Seq<char>>
    decreases p.len(),
{
    if p.len() == 0 {
        seq![seq![]]
    } else {
        let init = split_slash(p.drop_last());
        if p.last() == '/' {
            init.push(seq![])
        } else {
            init.update(init.len() - 1, init.last().push(p.last()))
        }
    }
}

/// The component that a segment between separators stands for, if any.
pub open spec fn segment_parts(s: Seq<char>) -> Seq<Part> {
    if s.len() == 0 || s == seq!['.'] {
        seq![]
    } else if s == seq!['.', '.'] {
        seq![Part::Parent]
    } else {
        seq![Part::Name(s)]
    }
}

/// The components of a list of segments that follow the first one.
pub open spec fn segments_parts(segs: Seq<Seq<char>>) -> Seq<Part>
    decreases segs.len(),
{
    if segs.len() == 0 {
        seq![]
    } else {
        segments_parts(segs.drop_last()) + segment_parts(segs.last())
    }
}

/// The components of the path `p`.
pub open spec fn path_parts(p: Seq<char>) -> Seq<Part> {
    let segs = split_slash(p);
    if p.len() > 0 && p[0] == '/' {
        seq![Part::Root] + segments_parts(segs.drop_first())
    } else if segs[0] == seq!['.'] {
        seq![Part::Cur] + segments_parts(segs.drop_first())
    } else {
        segments_parts(segs)
    }
}

/// Whether `a` is a prefix of `b`.
pub open spec fn is_prefix<T>(a: Seq<T>, b: Seq<T>) -> bool {
    a.len() <= b.len() && b.take(a.len() as int) == a
}

/// What remains of the path `p` after its prefix `base`, as `Path::strip_prefix`
/// gives it; `None` when `base` is not a prefix of `p`.
pub open spec fn strip_parts(p: Seq<char>, base: Seq<char>) -> Option<Seq<Part>> {
    if is_prefix(path_parts(base), path_parts(p)) {
        Some(path_parts(p).skip(path_parts(base).len() as int))
    } else {
        None
    }
}

/// The text of one component.
pub open spec fn part_text(c: Part) -> Seq<char> {
    match c {
        Part::Root => seq!['/'],
        Part::Cur => seq!['.'],
        Part::Parent => seq!['.', '.'],
        Part::Name(s) => s,
    }
}

/// The path made of the components `cs`: their texts joined by `/`, with no `/`
/// after the root.
pub open spec fn render_parts(cs: Seq<Part>) -> Seq<char>
    decreases cs.len(),
{
    if cs.len() == 0 {
        seq![]
    } else {
        let r = render_parts(cs.drop_last());
        if r.len() == 0 || r.last() == '/' {
            r + part_text(cs.last())
        } else {
            r + seq!['/'] + part_text(cs.last())
        }
    }
}

/// The segments of `p` between separators.
pub(crate) fn split_segments(p: &Vec<char>) -> (r: Vec<Vec<char>>)
    ensures
        r.deep_view() == split_slash(p@),
{
    let mut done: Vec<Vec<char>> = Vec::new();
    let mut cur: Vec<char> = Vec::new();
    let mut i: usize = 0;
    assert(p@.take(0) =~= Seq::<char>::empty());
    assert(done.deep_view().push(cur@) =~= split_slash(p@.take(0)));
    while i < p.len()
        invariant
            i <= p.len(),
            done.deep_view().push(cur@) == split_slash(p@.take(i as int)),
        decreases p.len() - i,
    {
        let c = p[i];
        let ghost before = done.deep_view();
        assert(p@.take(i + 1).drop_last() =~= p@.take(i as int));
        if c == '/' {
            let full = cur;
            cur = Vec::new();
            assert(full.deep_view() =~= full@);
            done.push(full);
            assert(done.deep_view() =~= before.push(full@));
            assert(done.deep_view().push(cur@) =~= split_slash(p@.take(i + 1)));
        } else {
            let ghost old_cur = cur@;
            cur.push(c);
            assert(done.deep_view().push(cur@) =~= before.push(old_cur).update(
                before.len() as int,
                old_cur.push(c),
            ));
        }
        i = i + 1;
    }
    assert(p@.take(p.len() as int) =~= p@);
    let ghost before = done.deep_view();
    assert(cur.deep_view() =~= cur@);
    done.push(cur);
    assert(done.deep_view() =~= before.push(cur@));
    done
}

/// Whether the segment `s` is `.`.
pub(crate) fn is_dot(s: &Vec<char>) -> (b: bool)
    ensures
        b == (s@ == seq!['.']),
{
    if s.len() == 1 && s[0] == '.' {
        assert(s@ =~= seq!['.']);
        true
    } else {
        false
    }
}

/// Whether the segment `s` is `..`.
pub(crate) fn is_dot_dot(s: &Vec<char>) -> (b: bool)
    ensures
        b == (s@ == seq!['.', '.']),
{
    if s.len() == 2 && s[0] == '.' && s[1] == '.' {
        assert(s@ =~= seq!['.', '.']);
        true
    } else {
        false
    }
}

/// The components of the path `p`, as `Path::components` yields them on Unix.
pub fn components(p: &str) -> (r: Vec<Component>)
    ensures
        parts(r@) == path_parts(p@),
{
    let cs = chars_of(p);
    let segs = split_segments(&cs);
    let ghost sv = segs.deep_view();
    assert(sv.len() >= 1) by {
        lemma_split_nonempty(cs@);
    }
    let mut out: Vec<Component> = Vec::new();
    assert(segs@[0].deep_view() =~= segs@[0]@);
    assert(parts(out@) =~= Seq::<Part>::empty());
    let first: usize;
    if cs.len() > 0 && cs[0] == '/' {
        out.push(Component::RootDir);
        assert(parts(out@) =~= seq![Part::Root]);
        first = 1;
    } else if is_dot(&segs[0]) {
        out.push(Component::CurDir);
        assert(parts(out@) =~= seq![Part::Cur]);
        first = 1;
    } else {
        first = 0;
    }
    let ghost head = parts(out@);
    let mut k = first;
    assert(sv.subrange(first as int, first as int) =~= Seq::<Seq<char>>::empty());
    assert(parts(out@) =~= head + segments_parts(sv.subrange(first as int, k as int)));
    while k < segs.len()
        invariant
            first <= k <= segs.len(),
            segs.deep_view() == sv,
            parts(out@) == head + segments_parts(sv.subrange(first as int, k as int)),
        decreases segs.len() - k,
    {
        let seg = &segs[k];
        assert(seg.deep_view() =~= seg@);
        assert(seg@ == sv[k as int]);
        let ghost before = parts(out@);
        assert(sv.subrange(first as int, k + 1).drop_last() =~= sv.subrange(first as int, k as int));
        if seg.len() == 0 || is_dot(seg) {
            assert(segment_parts(seg@) =~= Seq::<Part>::empty());
            assert(before + segment_parts(seg@) =~= before);
        } else if is_dot_dot(seg) {
            out.push(Component::ParentDir);
            assert(parts(out@) =~= before + segment_parts(seg@));
        } else {
            let name = string_of(seg, 0, seg.len());
            assert(seg@.subrange(0, seg.len() as int) =~= seg@);
            out.push(Component::Normal(name));
            assert(parts(out@) =~= before + segment_parts(seg@));
        }
        assert(parts(out@) =~= head + segments_parts(sv.subrange(first as int, k + 1)));
        k = k + 1;
    }
    assert(sv.subrange(first as int, sv.len() as int) =~= if first == 1 {
        sv.drop_first()
    } else {
        sv
    });
    out
}

pub proof fn lemma_split_nonempty(p: Seq<char>)
    ensures
        split_slash(p).len() >= 1,
    decreases p.len(),
{
    if p.len() > 0 {
        lemma_split_nonempty(p.drop_last());
    }
}


/// Whether `p` is absolute: on Unix, whether it starts at the root.
pub open spec fn is_absolute_path(p: Seq<char>) -> bool {
    p.len() > 0 && p[0] == '/'
}

/// Executable [`is_absolute_path`] (`Path::is_absolute` on Unix).
pub fn is_absolute(p: &str) -> (b: bool)
    ensures
        b == is_absolute_path(p@),
{
    p.unicode_len() > 0 && p.get_char(0) == '/'
}

/// Whether two components are the same.
fn same_component(a: &Component, b: &Component) -> (r: bool)
    ensures
        r == (a@ == b@),
{
    match (a, b) {
        (Component::RootDir, Component::RootDir) => true,
        (Component::CurDir, Component::CurDir) => true,
        (Component::ParentDir, Component::ParentDir) => true,
        (Component::Normal(x), Component::Normal(y)) => *x == *y,
        _ => false,
    }
}

/// Whether the components `a` are a prefix of the components `b`.
fn components_prefix(a: &Vec<Component>, b: &Vec<Component>) -> (r: bool)
    ensures
        r == is_prefix(parts(a@), parts(b@)),
{
    if a.len() > b.len() {
        return false;
    }
    let mut i: usize = 0;
    while i < a.len()
        invariant
            i <= a.len() <= b.len(),
            forall|k: int| 0 <= k < i ==> a@[k]@ == b@[k]@,
        decreases a.len() - i,
    {
        if !same_component(&a[i], &b[i]) {
            assert(parts(b@).take(a.len() as int)[i as int] != parts(a@)[i as int]);
            return false;
        }
        i = i + 1;
    }
    assert(parts(b@).take(a.len() as int) =~= parts(a@));
    true
}

/// A copy of a component.
fn copy_component(c: &Component) -> (r: Component)
    ensures
        r@ == c@,
{
    match c {
        Component::RootDir => Component::RootDir,
        Component::CurDir => Component::CurDir,
        Component::ParentDir => Component::ParentDir,
        Component::Normal(s) => Component::Normal(s.clone()),
    }
}

/// `Path::starts_with`: whether the components of `base` are a prefix of those of `p`.
pub fn path_starts_with(p: &str, base: &str) -> (r: bool)
    ensures
        r == is_prefix(path_parts(base@), path_parts(p@)),
{
    let pc = components(p);
    let bc = components(base);
    components_prefix(&bc, &pc)
}

/// Whether `a` and `b` name the same path (`Path`'s `==`: equal components).
pub fn same_path(a: &str, b: &str) -> (r: bool)
    ensures
        r == (path_parts(a@) == path_parts(b@)),
{
    let ac = components(a);
    let bc = components(b);
    let r = ac.len() == bc.len() && components_prefix(&ac, &bc);
    proof {
        if r {
            assert(parts(bc@).take(parts(ac@).len() as int) =~= parts(bc@));
        }
        if path_parts(a@) == path_parts(b@) {
            assert(parts(bc@).take(parts(ac@).len() as int) =~= parts(bc@));
        }
    }
    r
}

/// `Path::strip_prefix`: the components of `p` after those of `base`, when `base`
/// is a prefix of `p`.
pub fn strip_prefix(p: &str, base: &str) -> (r: Option<Vec<Component>>)
    ensures
        match strip_parts(p@, base@) {
            Some(rest) => r matches Some(v) && parts(v@) == rest,
            None => r is None,
        },
{
    let pc = components(p);
    let bc = components(base);
    if !components_prefix(&bc, &pc) {
        return None;
    }
    let mut rest: Vec<Component> = Vec::new();
    let mut i = bc.len();
    while i < pc.len()
        invariant
            bc.len() <= i <= pc.len(),
            parts(rest@) == parts(pc@).subrange(bc.len() as int, i as int),
        decreases pc.len() - i,
    {
        let c = copy_component(&pc[i]);
        let ghost before = parts(rest@);
        rest.push(c);
        assert(parts(rest@) =~= before.push(pc@[i as int]@));
        i = i + 1;
        assert(parts(rest@) =~= parts(pc@).subrange(bc.len() as int, i as int));
    }
    assert(parts(pc@).subrange(bc.len() as int, pc.len() as int) =~= parts(pc@).skip(
        bc.len() as int,
    ));
    Some(rest)
}

/// Appends the text of a component to `out`. Returns `None` when the text is empty,
/// else whether it ends with `/`.
fn push_text(out: &mut String, c: &Component) -> (ends_slash: Option<bool>)
    ensures
        final(out)@ == old(out)@ + part_text(c@),
        ends_slash is None <==> part_text(c@).len() == 0,
        ends_slash matches Some(b) ==> b == (part_text(c@).last() == '/'),
{
    match c {
        Component::RootDir => {
            out.push('/');
            Some(true)
        },
        Component::CurDir => {
            out.push('.');
            Some(false)
        },
        Component::ParentDir => {
            out.push('.');
            out.push('.');
            assert(final(out)@ =~= old(out)@ + part_text(c@));
            Some(false)
        },
        Component::Normal(s) => {
            out.append(s.as_str());
            let n = s.as_str().unicode_len();
            if n == 0 {
                None
            } else {
                Some(s.as_str().get_char(n - 1) == '/')
            }
        },
    }
}

/// The path made of the components `cs` (`PathBuf::from_iter`).
pub fn render(cs: &Vec<Component>) -> (r: String)
    ensures
        r@ == render_parts(parts(cs@)),
{
    let mut out = String::new();
    let mut last_slash = false;
    let mut i: usize = 0;
    while i < cs.len()
        invariant
            i <= cs.len(),
            out@ == render_parts(parts(cs@).take(i as int)),
            out@.len() > 0 ==> last_slash == (out@.last() == '/'),
        decreases cs.len() - i,
    {
        let ghost before = out@;
        assert(parts(cs@).take(i + 1).drop_last() =~= parts(cs@).take(i as int));
        if out.as_str().unicode_len() > 0 && !last_slash {
            out.push('/');
            last_slash = true;
        }
        let ghost mid = out@;
        let s = push_text(&mut out, &cs[i]);
        if let Some(b) = s {
            last_slash = b;
        }
        proof {
            if part_text(cs@[i as int]@).len() > 0 {
                assert(out@.last() == part_text(cs@[i as int]@).last());
            } else {
                assert(out@ =~= mid);
            }
        }
        i = i + 1;
    }
    assert(parts(cs@).take(cs.len() as int) =~= parts(cs@));
    out
}

/// Appends the components `b` to copies of the components `a`.
pub fn concat_components(a: &Vec<Component>, b: &Vec<Component>) -> (r: Vec<Component>)
    ensures
        parts(r@) == parts(a@) + parts(b@),
{
    let mut r: Vec<Component> = Vec::new();
    let mut i: usize = 0;
    while i < a.len()
        invariant
            i <= a.len(),
            parts(r@) == parts(a@).take(i as int),
        decreases a.len() - i,
    {
        let ghost before = parts(r@);
        r.push(copy_component(&a[i]));
        assert(parts(r@) =~= before.push(a@[i as int]@));
        i = i + 1;
        assert(parts(r@) =~= parts(a@).take(i as int));
    }
    let mut j: usize = 0;
    while j < b.len()
        invariant
            j <= b.len(),
            parts(r@) == parts(a@) + parts(b@).take(j as int),
        decreases b.len() - j,
    {
        let ghost before = parts(r@);
        r.push(copy_component(&b[j]));
        assert(parts(r@) =~= before.push(b@[j as int]@));
        j = j + 1;
        assert(parts(r@) =~= parts(a@) + parts(b@).take(j as int));
    }
    assert(parts(a@).take(a.len() as int) =~= parts(a@));
    assert(parts(b@).take(b.len() as int) =~= parts(b@));
    r
}


/// A file or directory name as a component holds it: not empty, not `.` or `..`,
/// and without `/`.
pub open spec fn valid_name(s: Seq<char>) -> bool {
    &&& s.len() > 0
    &&& s != seq!['.']
    &&& s != seq!['.', '.']
    &&& !s.contains('/')
}

/// A list of components that a path can have: a root or a leading `.` only first,
/// and valid names.
pub open spec fn wf_parts(cs: Seq<Part>) -> bool {
    forall|i: int|
        0 <= i < cs.len() ==> match #[trigger] cs[i] {
            Part::Root => i == 0,
            Part::Cur => i == 0,
            Part::Parent => true,
            Part::Name(s) => valid_name(s),
        }
}

proof fn lemma_split_no_slash(p: Seq<char>)
    ensures
        forall|i: int| 0 <= i < split_slash(p).len() ==> !(#[trigger] split_slash(p)[i]).contains('/'),
    decreases p.len(),
{
    lemma_split_nonempty(p);
    if p.len() > 0 {
        let init = split_slash(p.drop_last());
        lemma_split_no_slash(p.drop_last());
        lemma_split_nonempty(p.drop_last());
        if p.last() != '/' {
            let l = init.last();
            assert forall|i: int| 0 <= i < split_slash(p).len() implies !(#[trigger] split_slash(p)[i]).contains('/') by {
                if i == init.len() - 1 {
                    assert(!l.contains('/'));
                    if l.push(p.last()).contains('/') {
                        let k = choose|k: int| 0 <= k < l.push(p.last()).len() && l.push(p.last())[k] == '/';
                        assert(l[k] == '/');
                    }
                }
            }
        } else {
            assert forall|i: int| 0 <= i < split_slash(p).len() implies !(#[trigger] split_slash(p)[i]).contains('/') by {
                if i == init.len() {
                    assert(split_slash(p)[i] =~= Seq::<char>::empty());
                }
            }
        }
    }
}

proof fn lemma_segments_parts_push(segs: Seq<Seq<char>>, t: Seq<char>)
    ensures
        segments_parts(segs.push(t)) == segments_parts(segs) + segment_parts(t),
{
    assert(segs.push(t).drop_last() =~= segs);
}

proof fn lemma_segments_parts_wf(segs: Seq<Seq<char>>)
    requires
        forall|i: int| 0 <= i < segs.len() ==> !(#[trigger] segs[i]).contains('/'),
    ensures
        forall|i: int| 0 <= i < segments_parts(segs).len() ==> match #[trigger] segments_parts(segs)[i] {
            Part::Root => false,
            Part::Cur => false,
            Part::Parent => true,
            Part::Name(s) => valid_name(s),
        },
    decreases segs.len(),
{
    if segs.len() > 0 {
        lemma_segments_parts_wf(segs.drop_last());
        assert(!segs[segs.len() - 1].contains('/'));
    }
}

/// The components of any path form a well-formed list.
pub proof fn lemma_path_parts_wf(p: Seq<char>)
    ensures
        wf_parts(path_parts(p)),
{
    let segs = split_slash(p);
    lemma_split_nonempty(p);
    lemma_split_no_slash(p);
    let tail = segs.drop_first();
    assert forall|i: int| 0 <= i < tail.len() implies !(#[trigger] tail[i]).contains('/') by {
        assert(tail[i] == segs[i + 1]);
    }
    lemma_segments_parts_wf(tail);
    lemma_segments_parts_wf(segs);
    let r = path_parts(p);
    assert forall|i: int| 0 <= i < r.len() implies match #[trigger] r[i] {
        Part::Root => i == 0,
        Part::Cur => i == 0,
        Part::Parent => true,
        Part::Name(s) => valid_name(s),
    } by {
        if p.len() > 0 && p[0] == '/' {
            if i > 0 {
                assert(r[i] == segments_parts(tail)[i - 1]);
            }
        } else if segs[0] == seq!['.'] {
            if i > 0 {
                assert(r[i] == segments_parts(tail)[i - 1]);
            }
        } else {
            assert(r[i] == segments_parts(segs)[i]);
        }
    }
}

proof fn lemma_split_append(r: Seq<char>, t: Seq<char>)
    requires
        !t.contains('/'),
    ensures
        split_slash(r + t) == split_slash(r).update(
            split_slash(r).len() - 1,
            split_slash(r).last() + t,
        ),
    decreases t.len(),
{
    lemma_split_nonempty(r);
    if t.len() == 0 {
        assert(r + t =~= r);
        assert(split_slash(r).last() + t =~= split_slash(r).last());
        assert(split_slash(r).update(split_slash(r).len() - 1, split_slash(r).last())
            =~= split_slash(r));
    } else {
        let t0 = t.drop_last();
        assert(!t0.contains('/')) by {
            if t0.contains('/') {
                let k = choose|k: int| 0 <= k < t0.len() && t0[k] == '/';
                assert(t[k] == '/');
            }
        }
        assert(t.last() != '/') by {
            assert(t[t.len() - 1] == t.last());
        }
        lemma_split_append(r, t0);
        assert((r + t).drop_last() =~= r + t0);
        assert((r + t).last() == t.last());
        let s = split_slash(r);
        assert(split_slash(r + t0).last() == s.last() + t0);
        let i0 = split_slash(r + t0);
        assert(i0.len() == s.len());
        assert(i0.last() == s.last() + t0);
        assert((s.last() + t0).push(t.last()) =~= s.last() + t);
        assert(split_slash(r + t) == i0.update(i0.len() - 1, i0.last().push((r + t).last())));
        assert(split_slash(r + t) =~= s.update(s.len() - 1, s.last() + t));
    }
}

pub proof fn lemma_split_slash_then(r: Seq<char>, t: Seq<char>)
    requires
        !t.contains('/'),
    ensures
        split_slash(r + seq!['/'] + t) == split_slash(r).push(t),
{
    let x = r + seq!['/'];
    assert(x.drop_last() =~= r);
    assert(x.last() == '/');
    lemma_split_nonempty(r);
    lemma_split_append(x, t);
    let s = split_slash(r).push(Seq::<char>::empty());
    assert(split_slash(x) == s);
    assert(s.last() + t =~= t);
    assert(s.update(s.len() - 1, t) =~= split_slash(r).push(t));
}

pub proof fn lemma_path_parts_then(r: Seq<char>, t: Seq<char>)
    requires
        r.len() > 0,
        !t.contains('/'),
    ensures
        path_parts(r + seq!['/'] + t) == path_parts(r) + segment_parts(t),
{
    let n = r + seq!['/'] + t;
    lemma_split_slash_then(r, t);
    lemma_split_nonempty(r);
    let segs = split_slash(r);
    assert(n[0] == r[0]);
    assert(segs.push(t)[0] == segs[0]);
    assert(segs.push(t).drop_first() =~= segs.drop_first().push(t));
    lemma_segments_parts_push(segs.drop_first(), t);
    lemma_segments_parts_push(segs, t);
}

proof fn lemma_render_shape(cs: Seq<Part>)
    requires
        wf_parts(cs),
        cs.len() > 0,
    ensures
        render_parts(cs).len() > 0,
        render_parts(cs)[0] == '/' <==> cs[0] is Root,
        render_parts(cs).last() == '/' <==> (cs.len() == 1 && cs[0] is Root),
    decreases cs.len(),
{
    let init = cs.drop_last();
    let c = cs.last();
    assert(wf_parts(init)) by {
        assert forall|i: int| 0 <= i < init.len() implies match #[trigger] init[i] {
            Part::Root => i == 0,
            Part::Cur => i == 0,
            Part::Parent => true,
            Part::Name(s) => valid_name(s),
        } by {
            assert(init[i] == cs[i]);
        }
    }
    assert(match cs[cs.len() - 1] {
        Part::Root => cs.len() - 1 == 0,
        Part::Cur => cs.len() - 1 == 0,
        Part::Parent => true,
        Part::Name(s) => valid_name(s),
    });
    let t = part_text(c);
    assert(t.len() > 0);
    if let Part::Name(s) = c {
        assert(t.last() != '/') by {
            assert(t[t.len() - 1] == t.last());
        }
    }
    if init.len() == 0 {
        assert(render_parts(init) =~= Seq::<char>::empty());
        assert(render_parts(cs) =~= t);
    } else {
        lemma_render_shape(init);
        assert(init[0] == cs[0]);
        let r = render_parts(init);
        if r.last() == '/' {
            assert((r + t)[0] == r[0]);
            assert((r + t).last() == t.last());
        } else {
            assert((r + seq!['/'] + t)[0] == r[0]);
            assert((r + seq!['/'] + t).last() == t.last());
        }
    }
}

proof fn lemma_name_parts(c: Part)
    requires
        match c {
            Part::Name(s) => valid_name(s),
            Part::Parent => true,
            _ => false,
        },
    ensures
        segment_parts(part_text(c)) == seq![c],
        !part_text(c).contains('/'),
{
    if c is Parent {
        assert(!part_text(c).contains('/')) by {
            if part_text(c).contains('/') {
                let k = choose|k: int| 0 <= k < part_text(c).len() && part_text(c)[k] == '/';
                assert(part_text(c)[k] == '.');
            }
        }
    }
}

/// Reading the path that a well-formed component list renders gives back that list.
pub proof fn lemma_render_parse(cs: Seq<Part>)
    requires
        wf_parts(cs),
    ensures
        path_parts(render_parts(cs)) == cs,
    decreases cs.len(),
{
    reveal_with_fuel(segments_parts, 2);
    reveal_with_fuel(split_slash, 2);
    if cs.len() == 0 {
        assert(render_parts(cs) =~= Seq::<char>::empty());
        assert(split_slash(Seq::<char>::empty()) == seq![Seq::<char>::empty()]);
        assert(seq![Seq::<char>::empty()].drop_last() =~= Seq::<Seq<char>>::empty());
        assert(segments_parts(seq![Seq::<char>::empty()]) =~= Seq::<Part>::empty());
        assert(path_parts(Seq::<char>::empty()) =~= cs);
    } else {
        let init = cs.drop_last();
        let c = cs.last();
        assert(wf_parts(init)) by {
            assert forall|i: int| 0 <= i < init.len() implies match #[trigger] init[i] {
                Part::Root => i == 0,
                Part::Cur => i == 0,
                Part::Parent => true,
                Part::Name(s) => valid_name(s),
            } by {
                assert(init[i] == cs[i]);
            }
        }
        assert(match cs[cs.len() - 1] {
            Part::Root => cs.len() - 1 == 0,
            Part::Cur => cs.len() - 1 == 0,
            Part::Parent => true,
            Part::Name(s) => valid_name(s),
        });
        if init.len() == 0 {
            assert(render_parts(init) =~= Seq::<char>::empty());
            let t = part_text(c);
            assert(render_parts(cs) =~= t);
            match c {
                Part::Root => {
                    assert(split_slash(seq!['/']) =~= seq![Seq::<char>::empty(), Seq::<char>::empty()]) by {
                        assert(seq!['/'].drop_last() =~= Seq::<char>::empty());
                    }
                    let segs = split_slash(seq!['/']);
                    assert(segs.drop_first() =~= seq![Seq::<char>::empty()]);
                    assert(seq![Seq::<char>::empty()].drop_last() =~= Seq::<Seq<char>>::empty());
                    assert(path_parts(t) =~= cs);
                },
                Part::Cur => {
                    assert(seq!['.'].drop_last() =~= Seq::<char>::empty());
                    assert(split_slash(seq!['.']) =~= seq![seq!['.']]);
                    assert(seq![seq!['.']].drop_first() =~= Seq::<Seq<char>>::empty());
                    assert(path_parts(t) =~= cs);
                },
                _ => {
                    lemma_name_parts(c);
                    lemma_split_append(Seq::<char>::empty(), t);
                    assert(Seq::<char>::empty() + t =~= t);
                    assert(split_slash(Seq::<char>::empty()) == seq![Seq::<char>::empty()]);
                    assert(Seq::<char>::empty() + t =~= t);
                    assert(split_slash(t) =~= seq![t]);
                    assert(t.len() > 0 && t[0] != '/') by {
                        assert(t.contains(t[0]) ==> t[0] != '/');
                    }
                    if t == seq!['.'] {
                        assert(false);
                    }
                    assert(seq![t].drop_last() =~= Seq::<Seq<char>>::empty());
                    assert(segments_parts(seq![t]) =~= seq![c]);
                    assert(path_parts(t) =~= cs);
                },
            }
        } else {
            lemma_render_parse(init);
            lemma_render_shape(init);
            assert(init[0] == cs[0]);
            let r = render_parts(init);
            assert(!(c is Root) && !(c is Cur));
            lemma_name_parts(c);
            let t = part_text(c);
            if r.last() == '/' {
                // `init` is the root alone.
                assert(r =~= seq!['/']) by {
                    assert(init =~= seq![Part::Root]);
                    assert(render_parts(init.drop_last()) =~= Seq::<char>::empty());
                }
                assert(render_parts(cs) == r + t);
                lemma_split_append(r, t);
                assert(seq!['/'].drop_last() =~= Seq::<char>::empty());
                let s0 = split_slash(r);
                assert(s0 =~= seq![Seq::<char>::empty(), Seq::<char>::empty()]);
                assert(split_slash(r + t) =~= seq![Seq::<char>::empty(), t]);
                assert(seq![Seq::<char>::empty(), t].drop_first() =~= seq![t]);
                assert(seq![t].drop_last() =~= Seq::<Seq<char>>::empty());
                assert((r + t)[0] == '/');
                assert(path_parts(r + t) =~= seq![Part::Root] + seq![c]);
                assert(cs =~= init.push(c));
            } else {
                assert(render_parts(cs) == r + seq!['/'] + t);
                lemma_path_parts_then(r, t);
                assert(cs =~= init + seq![c]);
            }
        }
    }
}


/// What remains of a path below an absolute base holds only `..` and valid names.
pub proof fn lemma_strip_parts_names(p: Seq<char>, base: Seq<char>)
    requires
        is_absolute_path(base),
        strip_parts(p, base) is Some,
    ensures
        forall|i: int|
            0 <= i < strip_parts(p, base).unwrap().len() ==> match #[trigger] strip_parts(
                p,
                base,
            ).unwrap()[i] {
                Part::Parent => true,
                Part::Name(s) => valid_name(s),
                _ => false,
            },
{
    let rel = strip_parts(p, base).unwrap();
    let pp = path_parts(p);
    let bl = path_parts(base).len() as int;
    lemma_path_parts_wf(p);
    assert(path_parts(base).len() > 0 && path_parts(base)[0] is Root);
    assert forall|i: int| 0 <= i < rel.len() implies match #[trigger] rel[i] {
        Part::Parent => true,
        Part::Name(s) => valid_name(s),
        _ => false,
    } by {
        assert(rel[i] == pp[bl + i]);
        assert(match pp[bl + i] {
            Part::Root => bl + i == 0,
            Part::Cur => bl + i == 0,
            Part::Parent => true,
            Part::Name(s) => valid_name(s),
        });
    }
}

} // verus!
