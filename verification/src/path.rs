//! File paths as texts, read the way Unix reads them: components stand between
//! slashes, and empty components and inner `.` components do not count.

use vstd::prelude::*;
use vstd::string::*;
use crate::text;

verus! {

pub open spec fn is_absolute_path(p: Seq<char>) -> bool {
    p.len() > 0 && p[0] == '/'
}

/// `other` seen from the directory `base`: itself where it is absolute, else
/// the two with one slash between them.
pub open spec fn joined_path(base: Seq<char>, other: Seq<char>) -> Seq<char> {
    if is_absolute_path(other) {
        other
    } else if base.len() == 0 || base.last() == '/' {
        base + other
    } else {
        base.push('/') + other
    }
}

/// A path without what stands behind its last component: slashes, and `.`
/// components behind a slash.
pub open spec fn without_tail(p: Seq<char>) -> Seq<char>
    decreases p.len(),
{
    if p.len() > 0 && p.last() == '/' {
        without_tail(p.drop_last())
    } else if p.len() > 1 && p.last() == '.' && p[p.len() - 2] == '/' {
        without_tail(p.subrange(0, p.len() - 2))
    } else {
        p
    }
}

/// The position behind the last `c` of `p`; 0 where there is none.
pub open spec fn after_last(p: Seq<char>, c: char) -> int
    decreases p.len(),
{
    if p.len() == 0 || p.last() == c {
        p.len() as int
    } else {
        after_last(p.drop_last(), c)
    }
}

pub open spec fn last_component(p: Seq<char>) -> Seq<char> {
    let q = without_tail(p);
    q.subrange(after_last(q, '/'), q.len() as int)
}

/// The last component, unless there is none, or it is `.` or `..`.
pub open spec fn file_name_of(p: Seq<char>) -> Option<Seq<char>> {
    let name = last_component(p);
    if name.len() == 0 || name == seq!['.'] || name == seq!['.', '.'] {
        None
    } else {
        Some(name)
    }
}

/// The position of the dot that starts a file name's extension; the length of
/// the name where it has none. A dot at the start of the name does not count.
pub open spec fn extension_dot(name: Seq<char>) -> int {
    let k = after_last(name, '.');
    if k <= 1 {
        name.len() as int
    } else {
        k - 1
    }
}

pub open spec fn file_stem_of(p: Seq<char>) -> Option<Seq<char>> {
    match file_name_of(p) {
        Some(name) => Some(name.subrange(0, extension_dot(name))),
        None => None,
    }
}

pub open spec fn extension_of(p: Seq<char>) -> Option<Seq<char>> {
    match file_name_of(p) {
        Some(name) => if extension_dot(name) < name.len() {
            Some(name.subrange(extension_dot(name) + 1, name.len() as int))
        } else {
            None
        },
        None => None,
    }
}

/// The path up to the end of its file stem, a dot, and `ext`; without the dot
/// where `ext` is empty, and `p` itself where it has no file name.
pub open spec fn with_extension_of(p: Seq<char>, ext: Seq<char>) -> Seq<char> {
    match file_name_of(p) {
        Some(name) => {
            let q = without_tail(p);
            let stem_end = q.len() - name.len() + extension_dot(name);
            if ext.len() == 0 {
                q.subrange(0, stem_end)
            } else {
                q.subrange(0, stem_end).push('.') + ext
            }
        },
        None => p,
    }
}

/// The path without its last component; none for the root and the empty path.
pub open spec fn parent_of(p: Seq<char>) -> Option<Seq<char>> {
    let q = without_tail(p);
    if q.len() == 0 {
        None
    } else {
        let before = q.subrange(0, after_last(q, '/'));
        let r = without_tail(before);
        if r.len() == 0 && is_absolute_path(p) {
            Some(seq!['/'])
        } else {
            Some(r)
        }
    }
}

pub proof fn lemma_after_last(p: Seq<char>, c: char)
    ensures
        0 <= after_last(p, c) <= p.len(),
        after_last(p, c) > 0 ==> p[after_last(p, c) - 1] == c,
        forall|j: int| after_last(p, c) <= j < p.len() ==> p[j] != c,
    decreases p.len(),
{
    if p.len() == 0 || p.last() == c {
    } else {
        lemma_after_last(p.drop_last(), c);
        assert forall|j: int| after_last(p, c) <= j < p.len() implies p[j] != c by {
            if j < p.len() - 1 {
                assert(p.drop_last()[j] == p[j]);
            }
        }
    }
}

pub proof fn lemma_without_tail(p: Seq<char>)
    ensures
        without_tail(p).len() <= p.len(),
        without_tail(p) == p.subrange(0, without_tail(p).len() as int),
    decreases p.len(),
{
    if p.len() > 0 && p.last() == '/' {
        lemma_without_tail(p.drop_last());
        let q = without_tail(p);
        assert(p.drop_last().subrange(0, q.len() as int) == p.subrange(0, q.len() as int));
    } else if p.len() > 1 && p.last() == '.' && p[p.len() - 2] == '/' {
        lemma_without_tail(p.subrange(0, p.len() - 2));
        let q = without_tail(p);
        assert(p.subrange(0, p.len() - 2).subrange(0, q.len() as int) == p.subrange(
            0,
            q.len() as int,
        ));
    } else {
        assert(p.subrange(0, p.len() as int) == p);
    }
}

/// The extension of a path is the one it was last given.
pub proof fn lemma_extension_of_with_extension(p: Seq<char>, ext: Seq<char>)
    requires
        file_name_of(p) is Some,
        ext.len() > 0,
        forall|j: int| 0 <= j < ext.len() ==> ext[j] != '/' && ext[j] != '.',
    ensures
        extension_of(with_extension_of(p, ext)) == Some(ext),
        file_stem_of(with_extension_of(p, ext)) == file_stem_of(p),
{
    let name = file_name_of(p)->0;
    let q = without_tail(p);
    let start = after_last(q, '/');
    lemma_after_last(q, '/');
    lemma_after_last(name, '.');
    let dot = extension_dot(name);
    let stem = name.subrange(0, dot);
    let w = with_extension_of(p, ext);
    let ghost_name = stem.push('.') + ext;
    assert(w == q.subrange(0, start + dot).push('.') + ext);
    assert(w.last() == ext.last());
    assert(without_tail(w) == w);
    assert(dot > 0);
    lemma_after_last(w, '/');
    assert(forall|j: int| start <= j < start + dot ==> w[j] == q[j]);
    assert(after_last(w, '/') == start) by {
        assert(forall|j: int| start <= j < w.len() ==> w[j] != '/');
        if start > 0 {
            assert(w[start - 1] == q[start - 1]);
        }
    }
    assert(last_component(w) == ghost_name) by {
        assert(w.subrange(start, w.len() as int) == ghost_name);
    }
    assert(ghost_name.len() >= 3);
    lemma_after_last(ghost_name, '.');
    assert(ghost_name[dot] == '.');
    assert(after_last(ghost_name, '.') == dot + 1);
    assert(ghost_name.subrange(dot + 1, ghost_name.len() as int) == ext);
    assert(ghost_name.subrange(0, dot) == stem);
}

/// A name in a directory is a path in the directory that has the name.
pub proof fn lemma_joined_path(base: Seq<char>, name: Seq<char>)
    requires
        name.len() > 0,
        !name.contains('/'),
        name != seq!['.'],
        name != seq!['.', '.'],
    ensures
        file_name_of(joined_path(base, name)) == Some(name),
        text::has_prefix(joined_path(base, name), base),
        text::has_suffix(joined_path(base, name), name),
        joined_path(base, name).len() <= base.len() + 1 + name.len(),
        base.len() > 0 ==> parent_of(joined_path(base, name)) == Some(
            if without_tail(base).len() == 0 && is_absolute_path(base) {
                seq!['/']
            } else {
                without_tail(base)
            },
        ),
{
    let p = joined_path(base, name);
    assert(name[0] != '/') by {
        assert(name.contains(name[0]));
    }
    let front = if base.len() == 0 || base.last() == '/' {
        base
    } else {
        base.push('/')
    };
    assert(p == front + name);
    assert forall|j: int| front.len() <= j < p.len() implies p[j] != '/' by {
        assert(p[j] == name[j - front.len()]);
        assert(name.contains(name[j - front.len()]));
    }
    assert(p.last() == name.last());
    assert(without_tail(p) == p) by {
        if p.last() == '.' && p.len() > 1 && p[p.len() - 2] == '/' {
            assert(name.len() == 1);
            assert(name =~= seq!['.']);
        }
    }
    lemma_after_last(p, '/');
    if front.len() > 0 {
        assert(p[front.len() - 1] == '/');
    }
    assert(after_last(p, '/') == front.len());
    assert(p.subrange(front.len() as int, p.len() as int) =~= name);
    assert(p.subrange(0, base.len() as int) =~= base);
    assert(p.subrange(p.len() - name.len(), p.len() as int) =~= name);
    if base.len() > 0 {
        assert(p.subrange(0, front.len() as int) =~= front);
        assert(without_tail(front) == without_tail(base)) by {
            if base.last() != '/' {
                assert(front.drop_last() =~= base);
            }
        }
        assert(is_absolute_path(p) == is_absolute_path(base));
    }
}

pub fn is_absolute(p: &str) -> (r: bool)
    ensures
        r == is_absolute_path(p@),
{
    let v = text::chars_of(p);
    v.len() > 0 && v[0] == '/'
}

pub fn join_path(base: &str, other: &str) -> (r: String)
    ensures
        r@ == joined_path(base@, other@),
{
    if is_absolute(other) {
        return other.to_owned();
    }
    let v = text::chars_of(base);
    let mut r: String = base.to_owned();
    if v.len() > 0 && v[v.len() - 1] != '/' {
        r.push('/');
    }
    r.append(other);
    r
}

/// The length of the path up to the end of its last component.
fn tail_start(v: &Vec<char>, end: usize) -> (r: usize)
    requires
        end <= v.len(),
    ensures
        r <= end,
        v@.subrange(0, r as int) == without_tail(v@.subrange(0, end as int)),
    decreases end,
{
    let ghost p = v@.subrange(0, end as int);
    if end > 0 && v[end - 1] == '/' {
        assert(p.drop_last() == v@.subrange(0, end - 1));
        tail_start(v, end - 1)
    } else if end > 1 && v[end - 1] == '.' && v[end - 2] == '/' {
        assert(p.subrange(0, end - 2) == v@.subrange(0, end - 2));
        tail_start(v, end - 2)
    } else {
        end
    }
}

fn behind_last(v: &Vec<char>, end: usize, c: char) -> (r: usize)
    requires
        end <= v.len(),
    ensures
        r <= end,
        r == after_last(v@.subrange(0, end as int), c),
    decreases end,
{
    let ghost p = v@.subrange(0, end as int);
    if end == 0 || v[end - 1] == c {
        end
    } else {
        assert(p.drop_last() == v@.subrange(0, end - 1));
        behind_last(v, end - 1, c)
    }
}

#[verifier::spinoff_prover]
pub fn file_name(p: &str) -> (r: Option<String>)
    ensures
        text::opt_text(r) == file_name_of(p@),
{
    let v = text::chars_of(p);
    assert(v@.subrange(0, v@.len() as int) == v@);
    let end: usize = tail_start(&v, v.len());
    let start: usize = behind_last(&v, end, '/');
    let name = p.substring_char(start, end);
    assert(name@ == last_component(p@)) by {
        let q = without_tail(p@);
        assert(q.subrange(start as int, end as int) == p@.subrange(start as int, end as int));
    }
    let n: usize = end - start;
    let bare: bool = n == 0 || (n == 1 && v[start] == '.') || (n == 2 && v[start] == '.' && v[start
        + 1] == '.');
    proof {
        let one = seq!['.'];
        let two = seq!['.', '.'];
        if n == 1 && v@[start as int] == '.' {
            assert(name@ == one);
        }
        if n == 2 && v@[start as int] == '.' && v@[start + 1] == '.' {
            assert(name@ == two);
        }
        if name@ == one {
            assert(name@[0] == '.');
        }
        if name@ == two {
            assert(name@[0] == '.');
            assert(name@[1] == '.');
        }
    }
    if bare {
        None
    } else {
        Some(name.to_owned())
    }
}

fn dot_of(name: &str) -> (r: usize)
    ensures
        r == extension_dot(name@),
        r <= name@.len(),
{
    let v = text::chars_of(name);
    assert(v@.subrange(0, v@.len() as int) == v@);
    let k: usize = behind_last(&v, v.len(), '.');
    if k <= 1 {
        v.len()
    } else {
        k - 1
    }
}

pub fn file_stem(p: &str) -> (r: Option<String>)
    ensures
        text::opt_text(r) == file_stem_of(p@),
{
    match file_name(p) {
        Some(name) => {
            let dot: usize = dot_of(name.as_str());
            Some(name.as_str().substring_char(0, dot).to_owned())
        },
        None => None,
    }
}

pub fn extension(p: &str) -> (r: Option<String>)
    ensures
        text::opt_text(r) == extension_of(p@),
{
    match file_name(p) {
        Some(name) => {
            let dot: usize = dot_of(name.as_str());
            let len: usize = name.as_str().unicode_len();
            if dot < len {
                Some(name.as_str().substring_char(dot + 1, len).to_owned())
            } else {
                None
            }
        },
        None => None,
    }
}

pub fn with_extension(p: &str, ext: &str) -> (r: String)
    ensures
        r@ == with_extension_of(p@, ext@),
{
    match file_name(p) {
        Some(name) => {
            let v = text::chars_of(p);
            assert(v@.subrange(0, v@.len() as int) == v@);
            let end: usize = tail_start(&v, v.len());
            let dot: usize = dot_of(name.as_str());
            let len: usize = name.as_str().unicode_len();
            proof {
                lemma_after_last(without_tail(p@), '/');
            }
            let stem_end: usize = end - len + dot;
            assert(without_tail(p@).subrange(0, stem_end as int) == p@.subrange(
                0,
                stem_end as int,
            ));
            let mut r: String = p.substring_char(0, stem_end).to_owned();
            if !ext.is_empty() {
                r.push('.');
                r.append(ext);
            }
            r
        },
        None => p.to_owned(),
    }
}

pub fn parent(p: &str) -> (r: Option<String>)
    ensures
        text::opt_text(r) == parent_of(p@),
{
    let v = text::chars_of(p);
    assert(v@.subrange(0, v@.len() as int) == v@);
    let end: usize = tail_start(&v, v.len());
    if end == 0 {
        return None;
    }
    let before: usize = behind_last(&v, end, '/');
    let cut: usize = tail_start(&v, before);
    assert(without_tail(p@).subrange(0, before as int) == p@.subrange(0, before as int));
    if cut == 0 && v[0] == '/' {
        let mut root: String = String::new();
        root.push('/');
        assert(root@ == seq!['/']);
        Some(root)
    } else {
        Some(p.substring_char(0, cut).to_owned())
    }
}

/// The components among the parts of a path between slashes: empty parts are
/// none, and `.` is one only at the start of a relative path.
pub open spec fn components_in(parts: Seq<Seq<char>>, absolute: bool) -> Seq<Seq<char>>
    decreases parts.len(),
{
    if parts.len() == 0 {
        seq![]
    } else {
        let before = components_in(parts.drop_last(), absolute);
        let part = parts.last();
        if part.len() == 0 || (part == "."@ && (absolute || parts.len() > 1)) {
            before
        } else {
            before.push(part)
        }
    }
}

pub open spec fn components_of(p: Seq<char>) -> Seq<Seq<char>> {
    components_in(text::split_of(p, '/'), is_absolute_path(p))
}

/// Both texts name one path: the same components from the same root.
pub open spec fn is_same_path(a: Seq<char>, b: Seq<char>) -> bool {
    is_absolute_path(a) == is_absolute_path(b) && components_of(a) == components_of(b)
}

pub fn components(p: &str) -> (r: Vec<String>)
    ensures
        text::texts(r@) == components_of(p@),
{
    let absolute: bool = is_absolute(p);
    let parts = text::split(p, '/');
    let ghost all = text::texts(parts@);
    let mut r: Vec<String> = Vec::new();
    let mut i: usize = 0;
    assert(text::texts(r@) =~= components_in(all.subrange(0, 0), absolute));
    while i < parts.len()
        invariant
            i <= parts.len(),
            all == text::texts(parts@),
            text::texts(r@) == components_in(all.subrange(0, i as int), absolute),
        decreases parts.len() - i,
    {
        let ghost next = all.subrange(0, i + 1);
        assert(next.drop_last() == all.subrange(0, i as int));
        assert(next.last() == parts@[i as int]@);
        let ghost before = text::texts(r@);
        let part = parts[i].as_str();
        let dropped: bool = part.unicode_len() == 0 || (text::same(part, ".") && (absolute || i
            > 0));
        if !dropped {
            r.push(parts[i].clone());
            assert(text::texts(r@) =~= before.push(parts@[i as int]@));
        }
        i = i + 1;
    }
    assert(all.subrange(0, all.len() as int) == all);
    r
}

fn same_texts(a: &Vec<String>, b: &Vec<String>) -> (r: bool)
    ensures
        r == (text::texts(a@) == text::texts(b@)),
{
    if a.len() != b.len() {
        assert(text::texts(a@).len() != text::texts(b@).len());
        return false;
    }
    let mut i: usize = 0;
    while i < a.len()
        invariant
            i <= a.len(),
            a.len() == b.len(),
            forall|j: int| 0 <= j < i ==> (#[trigger] a@[j])@ == b@[j]@,
        decreases a.len() - i,
    {
        if !text::same(a[i].as_str(), b[i].as_str()) {
            assert(text::texts(a@)[i as int] != text::texts(b@)[i as int]);
            return false;
        }
        i = i + 1;
    }
    assert(text::texts(a@) =~= text::texts(b@));
    true
}

pub fn same_path(a: &str, b: &str) -> (r: bool)
    ensures
        r == is_same_path(a@, b@),
{
    is_absolute(a) == is_absolute(b) && same_texts(&components(a), &components(b))
}

/// No slash stands in the name of a file.
pub proof fn lemma_file_name_is_plain(p: Seq<char>)
    ensures
        file_name_of(p) matches Some(name) ==> !name.contains('/') && name.len() > 0,
{
    let q = without_tail(p);
    lemma_after_last(q, '/');
    if let Some(name) = file_name_of(p) {
        if name.contains('/') {
            let i = choose|i: int| 0 <= i < name.len() && name[i] == '/';
            assert(q[after_last(q, '/') + i] == '/');
        }
    }
}

}
