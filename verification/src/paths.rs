//! Paths compared the way the standard library compares them: by components.
//!
//! Two spellings of one path, such as `/a/b` and `/a/b/` or `/a//b`, are one
//! path, and paths are ordered component by component, so `/a/b` comes before
//! `/a-b` even though `-` sorts before `/` as a character. A component is kept
//! as its text: `/` for the root, `.` for a leading current directory, `..` for
//! a parent, and the name otherwise; the root sorts first, then `.`, then `..`,
//! then the names in character order.

use vstd::prelude::*;

use crate::text::{
    chars_eq, clone_chars, lemma_lex_irreflexive, lemma_lex_total, lemma_lex_transitive, lex_lt, lex_lt_chars,
    split_chars, split_on, views,
};

verus! {

pub open spec fn root_text() -> Seq<char> {
    seq!['/']
}

pub open spec fn cur_text() -> Seq<char> {
    seq!['.']
}

pub open spec fn parent_text() -> Seq<char> {
    seq!['.', '.']
}

/// The pieces between separators that name something: empty pieces (from
/// repeated or trailing separators) and `.` are dropped.
pub open spec fn named_parts(pieces: Seq<Seq<char>>) -> Seq<Seq<char>>
    decreases pieces.len(),
{
    if pieces.len() == 0 {
        seq![]
    } else {
        let rest = named_parts(pieces.drop_last());
        let x = pieces.last();
        if x.len() == 0 || x == cur_text() {
            rest
        } else {
            rest.push(x)
        }
    }
}

/// Whether `p` starts at the root.
pub open spec fn is_rooted(p: Seq<char>) -> bool {
    p.len() > 0 && p[0] == '/'
}

/// Whether `p` keeps a leading `.`: only a relative path that is `.` or starts
/// with `./` does.
pub open spec fn has_leading_cur(p: Seq<char>) -> bool {
    !is_rooted(p) && p.len() > 0 && p[0] == '.' && (p.len() == 1 || p[1] == '/')
}

/// The components of `p`, in order.
pub open spec fn path_components(p: Seq<char>) -> Seq<Seq<char>> {
    let head: Seq<Seq<char>> = if is_rooted(p) {
        seq![root_text()]
    } else if has_leading_cur(p) {
        seq![cur_text()]
    } else {
        seq![]
    };
    head + named_parts(split_on(p, '/'))
}

/// Two spellings name the same path.
pub open spec fn same_path(a: Seq<char>, b: Seq<char>) -> bool {
    path_components(a) == path_components(b)
}

/// Where a component sorts among the kinds: root, current, parent, name.
pub open spec fn part_rank(c: Seq<char>) -> int {
    if c == root_text() {
        0
    } else if c == cur_text() {
        1
    } else if c == parent_text() {
        2
    } else {
        3
    }
}

/// One component before another.
pub open spec fn part_lt(a: Seq<char>, b: Seq<char>) -> bool {
    part_rank(a) < part_rank(b) || (part_rank(a) == 3 && part_rank(b) == 3 && lex_lt(a, b))
}

/// One component sequence before another: the first differing component
/// decides, and a proper prefix comes first.
pub open spec fn parts_lt(a: Seq<Seq<char>>, b: Seq<Seq<char>>) -> bool
    decreases a.len(),
{
    if b.len() == 0 {
        false
    } else if a.len() == 0 {
        true
    } else if a[0] != b[0] {
        part_lt(a[0], b[0])
    } else {
        parts_lt(a.drop_first(), b.drop_first())
    }
}

/// One path before another.
pub open spec fn path_lt(a: Seq<char>, b: Seq<char>) -> bool {
    parts_lt(path_components(a), path_components(b))
}

/// Strictly increasing in path order, so also free of two spellings of one
/// path.
pub open spec fn in_path_order(s: Seq<Seq<char>>) -> bool {
    forall|i: int, j: int| 0 <= i < j < s.len() ==> path_lt(#[trigger] s[i], #[trigger] s[j])
}

pub proof fn lemma_part_irreflexive(a: Seq<char>)
    ensures
        !part_lt(a, a),
{
    lemma_lex_irreflexive(a);
}

pub proof fn lemma_part_transitive(a: Seq<char>, b: Seq<char>, c: Seq<char>)
    requires
        part_lt(a, b),
        part_lt(b, c),
    ensures
        part_lt(a, c),
{
    if part_rank(a) == 3 && part_rank(b) == 3 && part_rank(c) == 3 {
        lemma_lex_transitive(a, b, c);
    }
}

pub proof fn lemma_part_total(a: Seq<char>, b: Seq<char>)
    requires
        a != b,
    ensures
        part_lt(a, b) || part_lt(b, a),
{
    if part_rank(a) == 3 && part_rank(b) == 3 {
        lemma_lex_total(a, b);
    }
}

pub proof fn lemma_parts_irreflexive(a: Seq<Seq<char>>)
    ensures
        !parts_lt(a, a),
    decreases a.len(),
{
    if a.len() > 0 {
        lemma_parts_irreflexive(a.drop_first());
    }
}

pub proof fn lemma_parts_transitive(a: Seq<Seq<char>>, b: Seq<Seq<char>>, c: Seq<Seq<char>>)
    requires
        parts_lt(a, b),
        parts_lt(b, c),
    ensures
        parts_lt(a, c),
    decreases a.len(),
{
    if a.len() > 0 && b.len() > 0 && c.len() > 0 {
        if a[0] == b[0] && b[0] == c[0] {
            lemma_parts_transitive(a.drop_first(), b.drop_first(), c.drop_first());
        } else if a[0] != b[0] && b[0] != c[0] {
            lemma_part_transitive(a[0], b[0], c[0]);
            if a[0] == c[0] {
                lemma_part_irreflexive(a[0]);
                lemma_part_transitive(a[0], b[0], a[0]);
            }
        }
    }
}

pub proof fn lemma_parts_total(a: Seq<Seq<char>>, b: Seq<Seq<char>>)
    requires
        a != b,
    ensures
        parts_lt(a, b) || parts_lt(b, a),
    decreases a.len(),
{
    if a.len() > 0 && b.len() > 0 && a[0] == b[0] {
        if a.drop_first() == b.drop_first() {
            assert(a =~= seq![a[0]] + a.drop_first());
            assert(b =~= seq![b[0]] + b.drop_first());
        }
        lemma_parts_total(a.drop_first(), b.drop_first());
    } else if a.len() > 0 && b.len() > 0 {
        lemma_part_total(a[0], b[0]);
    } else if a.len() == 0 && b.len() == 0 {
        assert(a =~= b);
    }
}

fn part_rank_exec(c: &Vec<char>) -> (r: u8)
    ensures
        r == part_rank(c@),
{
    if c.len() == 1 && c[0] == '/' {
        assert(c@ =~= root_text());
        0
    } else if c.len() == 1 && c[0] == '.' {
        assert(c@ =~= cur_text());
        1
    } else if c.len() == 2 && c[0] == '.' && c[1] == '.' {
        assert(c@ =~= parent_text());
        2
    } else {
        assert(c@ != root_text() && c@ != cur_text() && c@ != parent_text()) by {
            if c@ == root_text() {
                assert(c@[0] == '/');
            }
            if c@ == cur_text() {
                assert(c@[0] == '.');
            }
            if c@ == parent_text() {
                assert(c@[0] == '.' && c@[1] == '.');
            }
        }
        3
    }
}

fn part_lt_exec(a: &Vec<char>, b: &Vec<char>) -> (r: bool)
    ensures
        r == part_lt(a@, b@),
{
    let ra = part_rank_exec(a);
    let rb = part_rank_exec(b);
    ra < rb || (ra == 3 && rb == 3 && lex_lt_chars(a, b))
}

/// Whether two component lists are the same.
pub fn parts_eq(a: &Vec<Vec<char>>, b: &Vec<Vec<char>>) -> (r: bool)
    ensures
        r == (views(a@) == views(b@)),
{
    if a.len() != b.len() {
        assert(views(a@).len() != views(b@).len());
        return false;
    }
    let mut i: usize = 0;
    while i < a.len()
        invariant
            i <= a.len() == b.len(),
            forall|j: int| 0 <= j < i ==> a@[j]@ == b@[j]@,
        decreases a.len() - i,
    {
        if !chars_eq(&a[i], &b[i]) {
            assert(views(a@)[i as int] != views(b@)[i as int]);
            return false;
        }
        i += 1;
    }
    assert(views(a@) =~= views(b@));
    true
}

/// Whether one component list sorts before another.
pub fn parts_lt_exec(a: &Vec<Vec<char>>, b: &Vec<Vec<char>>) -> (r: bool)
    ensures
        r == parts_lt(views(a@), views(b@)),
{
    let ghost va = views(a@);
    let ghost vb = views(b@);
    let mut i: usize = 0;
    assert(va.skip(0) =~= va);
    assert(vb.skip(0) =~= vb);
    while i < a.len() && i < b.len()
        invariant
            i <= a.len(),
            i <= b.len(),
            va == views(a@),
            vb == views(b@),
            parts_lt(va, vb) == parts_lt(va.skip(i as int), vb.skip(i as int)),
        decreases a.len() - i,
    {
        assert(va.skip(i as int)[0] == a@[i as int]@);
        assert(vb.skip(i as int)[0] == b@[i as int]@);
        if !chars_eq(&a[i], &b[i]) {
            return part_lt_exec(&a[i], &b[i]);
        }
        assert(va.skip(i as int).drop_first() =~= va.skip(i + 1));
        assert(vb.skip(i as int).drop_first() =~= vb.skip(i + 1));
        i += 1;
    }
    i < b.len()
}

/// The components of a path.
pub fn path_parts(p: &Vec<char>) -> (out: Vec<Vec<char>>)
    ensures
        views(out@) == path_components(p@),
{
    let pieces = split_chars(p, '/');
    let ghost ps = split_on(p@, '/');
    let mut out: Vec<Vec<char>> = Vec::new();
    let rooted = p.len() > 0 && p[0] == '/';
    let leading_cur = !rooted && p.len() > 0 && p[0] == '.' && (p.len() == 1 || p[1] == '/');
    if rooted {
        out.push(vec!['/']);
        assert(out@[0]@ =~= root_text());
    } else if leading_cur {
        out.push(vec!['.']);
        assert(out@[0]@ =~= cur_text());
    }
    let ghost head = views(out@);
    assert(head == (if is_rooted(p@) {
        seq![root_text()]
    } else if has_leading_cur(p@) {
        seq![cur_text()]
    } else {
        Seq::<Seq<char>>::empty()
    }));
    let mut i: usize = 0;
    assert(ps.take(0) =~= Seq::<Seq<char>>::empty());
    assert(head + named_parts(ps.take(0)) =~= head);
    while i < pieces.len()
        invariant
            i <= pieces.len(),
            views(pieces@) == ps,
            views(out@) == head + named_parts(ps.take(i as int)),
        decreases pieces.len() - i,
    {
        assert(ps.take(i + 1).drop_last() =~= ps.take(i as int));
        assert(ps.take(i + 1).last() == pieces@[i as int]@);
        let piece = &pieces[i];
        let is_cur = piece.len() == 1 && piece[0] == '.';
        assert(is_cur == (piece@ == cur_text())) by {
            if is_cur {
                assert(piece@ =~= cur_text());
            }
            if piece@ == cur_text() {
                assert(piece@[0] == '.');
            }
        }
        if piece.len() > 0 && !is_cur {
            let ghost before = views(out@);
            out.push(piece.clone());
            assert(views(out@) =~= before.push(piece@));
        }
        i += 1;
    }
    assert(ps.take(pieces.len() as int) =~= ps);
    out
}

// ---------------------------------------------------------------------------
// A small map keyed by path, kept as a vector in path order
// ---------------------------------------------------------------------------

pub open spec fn pc(p: Seq<char>) -> Seq<Seq<char>> {
    path_components(p)
}

/// `s` holds exactly the entries of `m`, once per path, in path order. `m` is
/// keyed by components and keeps, next to each value, the spelling the path
/// was first given in.
pub open spec fn holds_paths<V>(s: Seq<(Vec<char>, V)>, m: Map<Seq<Seq<char>>, (Seq<char>, V)>) -> bool {
    &&& forall|i: int, j: int|
        0 <= i < j < s.len() ==> parts_lt(pc(#[trigger] s[i].0@), pc(#[trigger] s[j].0@))
    &&& forall|i: int|
        0 <= i < s.len() ==> m.dom().contains(pc(#[trigger] s[i].0@)) && m[pc(s[i].0@)] == (
            s[i].0@,
            s[i].1,
        )
    &&& forall|k: Seq<Seq<char>>|
        #[trigger] m.dom().contains(k) ==> exists|i: int| 0 <= i < s.len() && pc(#[trigger] s[i].0@) == k
}

/// `m` after `path` is set to `value`: a path already held keeps the spelling
/// it was first given in.
pub open spec fn set_spec<V>(m: Map<Seq<Seq<char>>, (Seq<char>, V)>, path: Seq<char>, value: V) -> Map<
    Seq<Seq<char>>,
    (Seq<char>, V),
> {
    let k = pc(path);
    m.insert(
        k,
        (
            if m.dom().contains(k) {
                m[k].0
            } else {
                path
            },
            value,
        ),
    )
}

/// The spellings held by `s`, in order.
pub open spec fn spellings<V>(s: Seq<(Vec<char>, V)>) -> Seq<Seq<char>> {
    s.map_values(|e: (Vec<char>, V)| e.0@)
}

pub proof fn lemma_holds_in_path_order<V>(s: Seq<(Vec<char>, V)>, m: Map<Seq<Seq<char>>, (Seq<char>, V)>)
    requires
        holds_paths(s, m),
    ensures
        in_path_order(spellings(s)),
{
    assert forall|i: int, j: int| 0 <= i < j < spellings(s).len() implies path_lt(
        #[trigger] spellings(s)[i],
        #[trigger] spellings(s)[j],
    ) by {
        assert(parts_lt(pc(s[i].0@), pc(s[j].0@)));
    }
}

/// The index holding the path with components `key`, when there is one.
pub fn find_path<V>(v: &Vec<(Vec<char>, V)>, key: &Vec<Vec<char>>, Ghost(m): Ghost<Map<Seq<Seq<char>>, (Seq<char>, V)>>) -> (r: Option<usize>)
    requires
        holds_paths(v@, m),
    ensures
        match r {
            Some(i) => i < v.len() && pc(v@[i as int].0@) == views(key@) && m.dom().contains(views(key@)),
            None => !m.dom().contains(views(key@)),
        },
{
    let mut i: usize = 0;
    while i < v.len()
        invariant
            i <= v.len(),
            holds_paths(v@, m),
            forall|j: int| 0 <= j < i ==> pc(#[trigger] v@[j].0@) != views(key@),
        decreases v.len() - i,
    {
        let parts = path_parts(&v[i].0);
        if parts_eq(&parts, key) {
            assert(m.dom().contains(pc(v@[i as int].0@)));
            return Some(i);
        }
        i += 1;
    }
    proof {
        if m.dom().contains(views(key@)) {
            let k = choose|k: int| 0 <= k < v@.len() && pc(#[trigger] v@[k].0@) == views(key@);
            assert(pc(v@[k].0@) != views(key@));
        }
    }
    None
}

/// Sets `path` to `value`, adding it in path order when it is new.
pub fn set_path<V>(v: &mut Vec<(Vec<char>, V)>, path: Vec<char>, value: V, Ghost(m): Ghost<Map<Seq<Seq<char>>, (Seq<char>, V)>>)
    requires
        holds_paths(old(v)@, m),
    ensures
        holds_paths(final(v)@, set_spec(m, path@, value)),
{
    let ghost old_s = v@;
    let ghost k = pc(path@);
    let ghost nm = set_spec(m, path@, value);
    let key = path_parts(&path);
    let mut p: usize = 0;
    let mut searching = true;
    while searching && p < v.len()
        invariant
            p <= v.len(),
            v@ == old_s,
            k == pc(path@),
            views(key@) == k,
            forall|j: int| 0 <= j < p ==> parts_lt(pc(#[trigger] old_s[j].0@), k),
            !searching ==> p < v.len() && !parts_lt(pc(old_s[p as int].0@), k),
        decreases v.len() - p + (if searching {
            1int
        } else {
            0int
        }),
    {
        let entry_parts = path_parts(&v[p].0);
        if parts_lt_exec(&entry_parts, &key) {
            p += 1;
        } else {
            searching = false;
        }
    }
    let same = if p < v.len() {
        let entry_parts = path_parts(&v[p].0);
        parts_eq(&entry_parts, &key)
    } else {
        false
    };
    if same {
        let kept = clone_chars(&v[p].0);
        v.set(p, (kept, value));
        proof {
            let ns = v@;
            assert(m.dom().contains(k));
            assert(m[k] == (old_s[p as int].0@, old_s[p as int].1));
            assert(nm == m.insert(k, (old_s[p as int].0@, value)));
            assert forall|i: int| 0 <= i < ns.len() implies pc(#[trigger] ns[i].0@) == pc(old_s[i].0@) by {
                if i != p {
                    assert(ns[i] == old_s[i]);
                }
            }
            assert forall|i: int, j: int| 0 <= i < j < ns.len() implies parts_lt(
                pc(#[trigger] ns[i].0@),
                pc(#[trigger] ns[j].0@),
            ) by {
                assert(pc(ns[i].0@) == pc(old_s[i].0@));
                assert(pc(ns[j].0@) == pc(old_s[j].0@));
                assert(parts_lt(pc(old_s[i].0@), pc(old_s[j].0@)));
            }
            assert forall|i: int| 0 <= i < ns.len() implies nm.dom().contains(pc(#[trigger] ns[i].0@))
                && nm[pc(ns[i].0@)] == (ns[i].0@, ns[i].1) by {
                if i != p {
                    assert(ns[i] == old_s[i]);
                    if pc(old_s[i].0@) == k {
                        if i < p {
                            assert(parts_lt(pc(old_s[i].0@), pc(old_s[p as int].0@)));
                        } else {
                            assert(parts_lt(pc(old_s[p as int].0@), pc(old_s[i].0@)));
                        }
                        lemma_parts_irreflexive(k);
                    }
                }
            }
            assert forall|x: Seq<Seq<char>>| #[trigger] nm.dom().contains(x) implies exists|i: int|
                0 <= i < ns.len() && pc(#[trigger] ns[i].0@) == x by {
                if x == k {
                    assert(pc(ns[p as int].0@) == x);
                } else {
                    let q = choose|q: int| 0 <= q < old_s.len() && pc(#[trigger] old_s[q].0@) == x;
                    assert(pc(ns[q].0@) == x);
                }
            }
        }
        return;
    }
    proof {
        if p < v.len() {
            assert(!parts_lt(pc(old_s[p as int].0@), k));
            lemma_parts_total(pc(old_s[p as int].0@), k);
        }
        if m.dom().contains(k) {
            let q = choose|q: int| 0 <= q < old_s.len() && pc(#[trigger] old_s[q].0@) == k;
            if q < p {
                assert(parts_lt(pc(old_s[q].0@), k));
                lemma_parts_irreflexive(k);
            } else {
                assert(p < old_s.len());
                if q > p {
                    assert(parts_lt(pc(old_s[p as int].0@), pc(old_s[q].0@)));
                    lemma_parts_transitive(k, pc(old_s[p as int].0@), k);
                }
                lemma_parts_irreflexive(k);
            }
        }
        assert(nm == m.insert(k, (path@, value)));
    }
    let ghost entry_path = path@;
    v.insert(p, (path, value));
    proof {
        let ns = v@;
        assert(ns =~= old_s.insert(p as int, (ns[p as int].0, value)));
        assert(ns[p as int].0@ == entry_path);
        assert forall|i: int, j: int| 0 <= i < j < ns.len() implies parts_lt(
            pc(#[trigger] ns[i].0@),
            pc(#[trigger] ns[j].0@),
        ) by {
            if j < p {
                assert(ns[i] == old_s[i] && ns[j] == old_s[j]);
            } else if j == p {
                assert(ns[i] == old_s[i]);
            } else if i == p {
                assert(ns[j] == old_s[j - 1]);
                if j - 1 > p {
                    assert(parts_lt(pc(old_s[p as int].0@), pc(old_s[j - 1].0@)));
                    lemma_parts_transitive(k, pc(old_s[p as int].0@), pc(old_s[j - 1].0@));
                }
            } else if i < p {
                assert(ns[i] == old_s[i] && ns[j] == old_s[j - 1]);
                assert(parts_lt(pc(old_s[i].0@), k));
                if j - 1 > p {
                    assert(parts_lt(pc(old_s[p as int].0@), pc(old_s[j - 1].0@)));
                    lemma_parts_transitive(k, pc(old_s[p as int].0@), pc(old_s[j - 1].0@));
                }
                lemma_parts_transitive(pc(old_s[i].0@), k, pc(old_s[j - 1].0@));
            } else {
                assert(ns[i] == old_s[i - 1] && ns[j] == old_s[j - 1]);
            }
        }
        assert forall|i: int| 0 <= i < ns.len() implies nm.dom().contains(pc(#[trigger] ns[i].0@))
            && nm[pc(ns[i].0@)] == (ns[i].0@, ns[i].1) by {
            if i < p {
                assert(ns[i] == old_s[i]);
                assert(parts_lt(pc(old_s[i].0@), k));
                if pc(old_s[i].0@) == k {
                    lemma_parts_irreflexive(k);
                }
            } else if i > p {
                assert(ns[i] == old_s[i - 1]);
                assert(parts_lt(pc(ns[p as int].0@), pc(ns[i].0@)));
                if pc(ns[i].0@) == k {
                    lemma_parts_irreflexive(k);
                }
            }
        }
        assert forall|x: Seq<Seq<char>>| #[trigger] nm.dom().contains(x) implies exists|i: int|
            0 <= i < ns.len() && pc(#[trigger] ns[i].0@) == x by {
            if x == k {
                assert(pc(ns[p as int].0@) == x);
            } else {
                assert(m.dom().contains(x));
                let q = choose|q: int| 0 <= q < old_s.len() && pc(#[trigger] old_s[q].0@) == x;
                if q < p {
                    assert(ns[q] == old_s[q]);
                    assert(pc(ns[q].0@) == x);
                } else {
                    assert(ns[q + 1] == old_s[q]);
                    assert(pc(ns[q + 1].0@) == x);
                }
            }
        }
    }
}

/// Removes the path `path` names, in whatever spelling it is held.
pub fn remove_path<V>(v: &mut Vec<(Vec<char>, V)>, path: &Vec<char>, Ghost(m): Ghost<Map<Seq<Seq<char>>, (Seq<char>, V)>>)
    requires
        holds_paths(old(v)@, m),
    ensures
        holds_paths(final(v)@, m.remove(pc(path@))),
{
    let key = path_parts(path);
    let found = find_path(v, &key, Ghost(m));
    let ghost old_s = v@;
    let ghost k = pc(path@);
    let ghost nm = m.remove(k);
    match found {
        None => {
            assert(nm =~= m);
        },
        Some(p) => {
            v.remove(p);
            proof {
                let ns = v@;
                assert(ns =~= old_s.remove(p as int));
                assert forall|i: int, j: int| 0 <= i < j < ns.len() implies parts_lt(
                    pc(#[trigger] ns[i].0@),
                    pc(#[trigger] ns[j].0@),
                ) by {
                    if j < p {
                        assert(ns[i] == old_s[i] && ns[j] == old_s[j]);
                    } else if i < p {
                        assert(ns[i] == old_s[i] && ns[j] == old_s[j + 1]);
                    } else {
                        assert(ns[i] == old_s[i + 1] && ns[j] == old_s[j + 1]);
                    }
                }
                assert forall|i: int| 0 <= i < ns.len() implies nm.dom().contains(pc(#[trigger] ns[i].0@))
                    && nm[pc(ns[i].0@)] == (ns[i].0@, ns[i].1) by {
                    let oi = if i < p {
                        i
                    } else {
                        i + 1
                    };
                    assert(ns[i] == old_s[oi]);
                    if pc(ns[i].0@) == k {
                        if oi < p {
                            assert(parts_lt(pc(old_s[oi].0@), pc(old_s[p as int].0@)));
                        } else {
                            assert(parts_lt(pc(old_s[p as int].0@), pc(old_s[oi].0@)));
                        }
                        lemma_parts_irreflexive(k);
                    }
                }
                assert forall|x: Seq<Seq<char>>| #[trigger] nm.dom().contains(x) implies exists|i: int|
                    0 <= i < ns.len() && pc(#[trigger] ns[i].0@) == x by {
                    let q = choose|q: int| 0 <= q < old_s.len() && pc(#[trigger] old_s[q].0@) == x;
                    assert(q != p);
                    if q < p {
                        assert(ns[q] == old_s[q]);
                    } else {
                        assert(ns[q - 1] == old_s[q]);
                    }
                }
            }
        },
    }
}

} // verus!
