//! Paths as text: components, their order, names and joining.

use vstd::prelude::*;

use crate::order::{lemma_push_contains, Ranked};
use crate::text::{
    chars_at_or_before, chars_le, chars_le_antisymmetric, chars_le_total, chars_le_transitive,
    from_chars, same_chars, to_chars,
};

verus! {

/// The pieces of `s` between slashes, empty ones too.
pub open spec fn pieces(s: Seq<char>) -> Seq<Seq<char>>
    decreases s.len(),
{
    if s.len() == 0 {
        seq![Seq::<char>::empty()]
    } else {
        let p = pieces(s.drop_last());
        if s.last() == '/' {
            p.push(Seq::empty())
        } else {
            p.update(p.len() - 1, p.last().push(s.last()))
        }
    }
}

/// Whether the piece at position `k` names something: repeated slashes leave
/// empty pieces behind, and `.` counts only at the very start.
pub open spec fn names_something(piece: Seq<char>, k: int) -> bool {
    piece.len() > 0 && (piece != seq!['.'] || k == 0)
}

/// The pieces that name something.
pub open spec fn named_pieces(p: Seq<Seq<char>>) -> Seq<Seq<char>>
    decreases p.len(),
{
    if p.len() == 0 {
        Seq::empty()
    } else {
        let rest = named_pieces(p.drop_last());
        if names_something(p.last(), p.len() - 1) {
            rest.push(p.last())
        } else {
            rest
        }
    }
}

/// The components of a path; a leading slash is the component `/`.
pub open spec fn components(s: Seq<char>) -> Seq<Seq<char>> {
    if s.len() > 0 && s[0] == '/' {
        seq![seq!['/']] + named_pieces(pieces(s))
    } else {
        named_pieces(pieces(s))
    }
}

/// Components sort by what they are first: the root, `.`, `..`, then names.
pub open spec fn component_class(c: Seq<char>) -> int {
    if c == seq!['/'] {
        0
    } else if c == seq!['.'] {
        1
    } else if c == seq!['.', '.'] {
        2
    } else {
        3
    }
}

/// Order of two components.
pub open spec fn component_le(a: Seq<char>, b: Seq<char>) -> bool {
    component_class(a) < component_class(b) || (component_class(a) == component_class(b) && chars_le(a, b))
}

/// Order of two component lists: the first difference decides, and a
/// directory comes before what is inside it.
pub open spec fn components_le(a: Seq<Seq<char>>, b: Seq<Seq<char>>) -> bool
    decreases a.len(),
{
    if a.len() == 0 {
        true
    } else if b.len() == 0 {
        false
    } else if a[0] != b[0] {
        component_le(a[0], b[0])
    } else {
        components_le(a.skip(1), b.skip(1))
    }
}

/// Order of two paths, component by component.
pub open spec fn path_le(a: Seq<char>, b: Seq<char>) -> bool {
    components_le(components(a), components(b))
}

/// Two component lists are always comparable.
pub proof fn components_le_total(a: Seq<Seq<char>>, b: Seq<Seq<char>>)
    ensures
        components_le(a, b) || components_le(b, a),
    decreases a.len(),
{
    if a.len() > 0 && b.len() > 0 {
        chars_le_total(a[0], b[0]);
        components_le_total(a.skip(1), b.skip(1));
    }
}

proof fn component_le_antisymmetric(a: Seq<char>, b: Seq<char>)
    requires
        component_le(a, b),
        component_le(b, a),
    ensures
        a == b,
{
    chars_le_antisymmetric(a, b);
}

/// The order of component lists is transitive.
pub proof fn components_le_transitive(a: Seq<Seq<char>>, b: Seq<Seq<char>>, c: Seq<Seq<char>>)
    requires
        components_le(a, b),
        components_le(b, c),
    ensures
        components_le(a, c),
    decreases a.len(),
{
    if a.len() > 0 && b.len() > 0 && c.len() > 0 {
        if a[0] == b[0] && b[0] == c[0] {
            components_le_transitive(a.skip(1), b.skip(1), c.skip(1));
        } else if a[0] != b[0] && b[0] != c[0] {
            if component_class(a[0]) == component_class(b[0]) && component_class(b[0]) == component_class(c[0]) {
                chars_le_transitive(a[0], b[0], c[0]);
            }
            if a[0] == c[0] {
                component_le_antisymmetric(a[0], b[0]);
            }
        }
    }
}

/// Component lists that come before each other are the same.
pub proof fn components_le_antisymmetric(a: Seq<Seq<char>>, b: Seq<Seq<char>>)
    requires
        components_le(a, b),
        components_le(b, a),
    ensures
        a == b,
    decreases a.len(),
{
    if a.len() > 0 && b.len() > 0 {
        if a[0] == b[0] {
            components_le_antisymmetric(a.skip(1), b.skip(1));
            assert(a =~= seq![a[0]] + a.skip(1));
            assert(b =~= seq![b[0]] + b.skip(1));
        } else {
            component_le_antisymmetric(a[0], b[0]);
        }
    } else {
        assert(a =~= b);
    }
}

/// Path order is reflexive.
pub proof fn path_le_reflexive(a: Seq<char>)
    ensures
        path_le(a, a),
{
    components_le_reflexive(components(a));
}

proof fn components_le_reflexive(a: Seq<Seq<char>>)
    ensures
        components_le(a, a),
    decreases a.len(),
{
    if a.len() > 0 {
        components_le_reflexive(a.skip(1));
    }
}

/// The texts held by a vector of character vectors.
pub open spec fn texts(v: Seq<Vec<char>>) -> Seq<Seq<char>> {
    Seq::new(v.len(), |i: int| v[i]@)
}

/// A path split into components, ready to be compared.
pub struct PathKey {
    /// The components, in order.
    pub parts: Vec<Vec<char>>,
}

impl View for PathKey {
    type V = Seq<Seq<char>>;

    open spec fn view(&self) -> Seq<Seq<char>> {
        texts(self.parts@)
    }
}

fn class_of(c: &Vec<char>) -> (r: u8)
    ensures
        r == component_class(c@),
{
    if c.len() == 1 && c[0] == '/' {
        proof {
            assert(c@ =~= seq!['/']);
        }
        0
    } else if c.len() == 1 && c[0] == '.' {
        proof {
            assert(c@ =~= seq!['.']);
        }
        1
    } else if c.len() == 2 && c[0] == '.' && c[1] == '.' {
        proof {
            assert(c@ =~= seq!['.', '.']);
        }
        2
    } else {
        proof {
            assert(seq!['/'][0] == '/');
            assert(seq!['.'][0] == '.');
            assert(seq!['.', '.'][0] == '.');
            assert(seq!['.', '.'][1] == '.');
        }
        3
    }
}

impl Ranked for PathKey {
    open spec fn rank_le(self, other: Self) -> bool {
        components_le(self@, other@)
    }

    proof fn rank_total(a: Self, b: Self) {
        components_le_total(a@, b@);
    }

    proof fn rank_transitive(a: Self, b: Self, c: Self) {
        components_le_transitive(a@, b@, c@);
    }

    fn ranks_at_or_before(&self, other: &Self) -> (r: bool) {
        let ghost a = self@;
        let ghost b = other@;
        let mut i: usize = 0;
        proof {
            assert(a.skip(0) =~= a);
            assert(b.skip(0) =~= b);
        }
        while i < self.parts.len() && i < other.parts.len() && same_chars(&self.parts[i], &other.parts[i])
            invariant
                i <= self.parts.len(),
                i <= other.parts.len(),
                a == self@,
                b == other@,
                components_le(a, b) == components_le(a.skip(i as int), b.skip(i as int)),
            decreases self.parts.len() - i,
        {
            proof {
                assert(a.skip(i as int).skip(1) =~= a.skip(i + 1));
                assert(b.skip(i as int).skip(1) =~= b.skip(i + 1));
            }
            i = i + 1;
        }
        if i == self.parts.len() {
            true
        } else if i == other.parts.len() {
            false
        } else {
            let x: u8 = class_of(&self.parts[i]);
            let y: u8 = class_of(&other.parts[i]);
            x < y || (x == y && chars_at_or_before(&self.parts[i], &other.parts[i]))
        }
    }
}

impl Ranked for Vec<char> {
    open spec fn rank_le(self, other: Self) -> bool {
        chars_le(self@, other@)
    }

    proof fn rank_total(a: Self, b: Self) {
        chars_le_total(a@, b@);
    }

    proof fn rank_transitive(a: Self, b: Self, c: Self) {
        chars_le_transitive(a@, b@, c@);
    }

    fn ranks_at_or_before(&self, other: &Self) -> (r: bool) {
        chars_at_or_before(self, other)
    }
}

fn pieces_of(s: &Vec<char>) -> (out: Vec<Vec<char>>)
    ensures
        texts(out@) == pieces(s@),
        out.len() > 0,
{
    let mut out: Vec<Vec<char>> = Vec::new();
    let mut cur: Vec<char> = Vec::new();
    let mut i: usize = 0;
    proof {
        assert(s@.take(0) =~= Seq::<char>::empty());
        assert(texts(out@).push(cur@) =~= pieces(s@.take(0)));
    }
    while i < s.len()
        invariant
            i <= s.len(),
            texts(out@).push(cur@) == pieces(s@.take(i as int)),
        decreases s.len() - i,
    {
        let ghost done = texts(out@);
        let ghost open_piece = cur@;
        let ghost next = s@.take(i + 1);
        proof {
            assert(next.drop_last() =~= s@.take(i as int));
            assert(next.last() == s@[i as int]);
        }
        if s[i] == '/' {
            out.push(cur);
            cur = Vec::new();
            proof {
                assert(texts(out@) =~= done.push(open_piece));
                assert(texts(out@).push(cur@) =~= pieces(next));
            }
        } else {
            cur.push(s[i]);
            proof {
                assert(texts(out@).push(cur@) =~= pieces(next));
            }
        }
        i = i + 1;
    }
    let ghost done = texts(out@);
    let ghost open_piece = cur@;
    out.push(cur);
    proof {
        assert(s@.take(i as int) =~= s@);
        assert(texts(out@) =~= done.push(open_piece));
    }
    out
}

/// Splits a path into its components.
pub fn path_key(path: &str) -> (key: PathKey)
    ensures
        key@ == components(path@),
{
    let s: Vec<char> = to_chars(path);
    let p: Vec<Vec<char>> = pieces_of(&s);
    let mut parts: Vec<Vec<char>> = Vec::new();
    let rooted: bool = s.len() > 0 && s[0] == '/';
    if rooted {
        let mut slash: Vec<char> = Vec::new();
        slash.push('/');
        proof {
            assert(slash@ =~= seq!['/']);
        }
        parts.push(slash);
    }
    let ghost lead = texts(parts@);
    let mut k: usize = 0;
    proof {
        assert(texts(p@).take(0) =~= Seq::<Seq<char>>::empty());
        assert(lead + Seq::<Seq<char>>::empty() =~= lead);
        if rooted {
            assert(lead =~= seq![seq!['/']]);
        } else {
            assert(lead =~= Seq::<Seq<char>>::empty());
        }
    }
    while k < p.len()
        invariant
            k <= p.len(),
            texts(parts@) == lead + named_pieces(texts(p@).take(k as int)),
        decreases p.len() - k,
    {
        let ghost before = texts(parts@);
        let ghost next = texts(p@).take(k + 1);
        proof {
            assert(next.drop_last() =~= texts(p@).take(k as int));
            assert(next.last() == p@[k as int]@);
        }
        let lone_dot: bool = p[k].len() == 1 && p[k][0] == '.';
        proof {
            if lone_dot {
                assert(p@[k as int]@ =~= seq!['.']);
            } else {
                assert(seq!['.'][0] == '.');
            }
        }
        if p[k].len() > 0 && (!lone_dot || k == 0) {
            parts.push(p[k].clone());
            proof {
                assert(parts@.last()@ =~= p@[k as int]@);
                assert(texts(parts@) =~= before.push(p@[k as int]@));
                assert(texts(parts@) =~= lead + named_pieces(next));
            }
        }
        k = k + 1;
    }
    proof {
        assert(texts(p@).take(k as int) =~= texts(p@));
        if !rooted {
            assert(lead + named_pieces(texts(p@)) =~= named_pieces(texts(p@)));
        }
    }
    PathKey { parts }
}

/// Texts, each followed by a slash.
pub open spec fn slashed(parts: Seq<Seq<char>>) -> Seq<char>
    decreases parts.len(),
{
    if parts.len() == 0 {
        Seq::empty()
    } else {
        (parts[0].push('/')) + slashed(parts.skip(1))
    }
}

/// The texts have no slash in them.
pub open spec fn slashless(parts: Seq<Seq<char>>) -> bool {
    forall|k: int| 0 <= k < parts.len() ==> !(#[trigger] parts[k]).contains('/')
}

pub proof fn lemma_pieces_slashless(s: Seq<char>)
    ensures
        slashless(pieces(s)),
        pieces(s).len() > 0,
    decreases s.len(),
{
    if s.len() > 0 {
        lemma_pieces_slashless(s.drop_last());
        let p = pieces(s.drop_last());
        assert forall|k: int| 0 <= k < pieces(s).len() implies !(#[trigger] pieces(s)[k]).contains('/') by {
            if s.last() != '/' && k == p.len() - 1 {
                assert(!p[k].contains('/'));
                lemma_push_contains(p[k], s.last());
            } else if k < p.len() {
                assert(!p[k].contains('/'));
            }
        }
    }
}

pub proof fn lemma_named_slashless(p: Seq<Seq<char>>)
    requires
        slashless(p),
    ensures
        slashless(named_pieces(p)),
    decreases p.len(),
{
    if p.len() > 0 {
        let head = p.drop_last();
        assert forall|k: int| 0 <= k < head.len() implies !(#[trigger] head[k]).contains('/') by {
            assert(head[k] == p[k]);
        }
        lemma_named_slashless(head);
        let rest = named_pieces(head);
        assert forall|k: int| 0 <= k < named_pieces(p).len() implies !(#[trigger] named_pieces(p)[k]).contains('/') by {
            if k < rest.len() {
                assert(!rest[k].contains('/'));
            } else {
                assert(!p[p.len() - 1].contains('/'));
            }
        }
    }
}

proof fn lemma_split_at_slash(a: Seq<char>, x: Seq<char>, b: Seq<char>, y: Seq<char>)
    requires
        !a.contains('/'),
        !b.contains('/'),
        a.push('/') + x == b.push('/') + y,
    ensures
        a == b,
        x == y,
{
    let s = a.push('/') + x;
    let t = b.push('/') + y;
    assert(s[a.len() as int] == '/');
    assert(t[b.len() as int] == '/');
    if a.len() < b.len() {
        assert(t[a.len() as int] == b[a.len() as int]);
        assert(b.contains(b[a.len() as int]));
    }
    if b.len() < a.len() {
        assert(s[b.len() as int] == a[b.len() as int]);
        assert(a.contains(a[b.len() as int]));
    }
    assert(a =~= s.take(a.len() as int));
    assert(b =~= t.take(b.len() as int));
    assert(x =~= s.skip(a.len() as int + 1));
    assert(y =~= t.skip(b.len() as int + 1));
}

pub proof fn lemma_key_injective(p: Seq<Seq<char>>, s: Seq<char>, q: Seq<Seq<char>>, t: Seq<char>)
    requires
        slashless(p),
        slashless(q),
        !s.contains('/'),
        !t.contains('/'),
        slashed(p) + s == slashed(q) + t,
    ensures
        p == q,
        s == t,
    decreases p.len(),
{
    if p.len() == 0 || q.len() == 0 {
        if p.len() > 0 {
            let text = slashed(p) + s;
            assert(text[p[0].len() as int] == '/');
            assert(slashed(q) + t =~= t);
            assert(t.contains(t[p[0].len() as int]));
        }
        if q.len() > 0 {
            let text = slashed(q) + t;
            assert(text[q[0].len() as int] == '/');
            assert(slashed(p) + s =~= s);
            assert(s.contains(s[q[0].len() as int]));
        }
        assert(slashed(p) + s =~= s);
        assert(slashed(q) + t =~= t);
        assert(p =~= q);
    } else {
        let x = slashed(p.skip(1)) + s;
        let y = slashed(q.skip(1)) + t;
        assert(slashed(p) + s =~= p[0].push('/') + x);
        assert(slashed(q) + t =~= q[0].push('/') + y);
        assert(!p[0].contains('/'));
        assert(!q[0].contains('/'));
        lemma_split_at_slash(p[0], x, q[0], y);
        assert forall|k: int| 0 <= k < p.skip(1).len() implies !(#[trigger] p.skip(1)[k]).contains('/') by {
            assert(p.skip(1)[k] == p[k + 1]);
        }
        assert forall|k: int| 0 <= k < q.skip(1).len() implies !(#[trigger] q.skip(1)[k]).contains('/') by {
            assert(q.skip(1)[k] == q[k + 1]);
        }
        lemma_key_injective(p.skip(1), s, q.skip(1), t);
        assert(p =~= seq![p[0]] + p.skip(1));
        assert(q =~= seq![q[0]] + q.skip(1));
    }
}

pub proof fn lemma_slashed_push(parts: Seq<Seq<char>>, x: Seq<char>)
    ensures
        slashed(parts.push(x)) == slashed(parts) + x.push('/'),
    decreases parts.len(),
{
    if parts.len() == 0 {
        let one = parts.push(x);
        assert(one.skip(1) =~= Seq::<Seq<char>>::empty());
        assert(slashed(one.skip(1)) =~= Seq::<char>::empty());
        assert(slashed(one) =~= x.push('/'));
        assert(slashed(parts) + x.push('/') =~= x.push('/'));
    } else {
        assert(parts.push(x).skip(1) =~= parts.skip(1).push(x));
        lemma_slashed_push(parts.skip(1), x);
        assert(slashed(parts.push(x)) =~= slashed(parts) + x.push('/'));
    }
}

pub proof fn lemma_pieces_named(p: Seq<Seq<char>>)
    ensures
        forall|i: int|
            0 <= i < named_pieces(p).len() ==> (#[trigger] named_pieces(p)[i]).len() > 0,
    decreases p.len(),
{
    if p.len() > 0 {
        let head = p.drop_last();
        lemma_pieces_named(head);
        let named = named_pieces(p);
        assert forall|i: int| 0 <= i < named.len() implies (#[trigger] named[i]).len() > 0 by {
            if i < named_pieces(head).len() {
                assert(named[i] == named_pieces(head)[i]);
            }
        }
    }
}

/// A path in its plainest spelling: its components, each followed by a slash.
pub open spec fn plain(path: Seq<char>) -> Seq<char> {
    slashed(components(path))
}

/// Two texts are the same path exactly if their plainest spellings agree.
pub proof fn plain_spellings_tell_paths_apart(a: Seq<char>, b: Seq<char>)
    ensures
        plain(a) == plain(b) <==> components(a) == components(b),
{
    if plain(a) == plain(b) {
        let p = named_pieces(pieces(a));
        let q = named_pieces(pieces(b));
        lemma_pieces_slashless(a);
        lemma_pieces_slashless(b);
        lemma_named_slashless(pieces(a));
        lemma_named_slashless(pieces(b));
        lemma_pieces_named(pieces(a));
        lemma_pieces_named(pieces(b));
        lemma_rooted_spelling(a);
        lemma_rooted_spelling(b);
        let x = slashed(p);
        let y = slashed(q);
        if rooted(a) && rooted(b) {
            assert(x =~= (seq!['/', '/'] + x).skip(2));
            assert(y =~= (seq!['/', '/'] + y).skip(2));
        } else if rooted(a) {
            assert(plain(a)[0] == '/');
            lemma_first_char(q);
        } else if rooted(b) {
            assert(plain(b)[0] == '/');
            lemma_first_char(p);
        }
        let none = Seq::<char>::empty();
        assert(x + none =~= x);
        assert(y + none =~= y);
        lemma_key_injective(p, none, q, none);
    }
}

/// A path that starts at the root.
pub open spec fn rooted(path: Seq<char>) -> bool {
    path.len() > 0 && path[0] == '/'
}

proof fn lemma_rooted_spelling(path: Seq<char>)
    ensures
        plain(path) == (if rooted(path) {
            seq!['/', '/'] + slashed(named_pieces(pieces(path)))
        } else {
            slashed(named_pieces(pieces(path)))
        }),
{
    if rooted(path) {
        let parts = components(path);
        assert(parts[0] == seq!['/']);
        assert(parts.skip(1) =~= named_pieces(pieces(path)));
        assert(seq!['/'].push('/') =~= seq!['/', '/']);
    }
}

proof fn lemma_first_char(parts: Seq<Seq<char>>)
    requires
        slashless(parts),
        forall|i: int| 0 <= i < parts.len() ==> (#[trigger] parts[i]).len() > 0,
    ensures
        slashed(parts).len() > 0 ==> slashed(parts)[0] != '/',
{
    if parts.len() > 0 {
        assert(parts[0].len() > 0);
        assert(!parts[0].contains('/'));
        assert(parts[0].contains(parts[0][0]));
        assert(slashed(parts)[0] == parts[0][0]);
    }
}

/// Spells a path in the plainest way.
pub fn plain_spelling(path: &str) -> (text: Vec<char>)
    ensures
        text@ == plain(path@),
{
    let key: PathKey = path_key(path);
    let mut text: Vec<char> = Vec::new();
    let mut i: usize = 0;
    proof {
        assert(key@.take(0) =~= Seq::<Seq<char>>::empty());
        assert(text@ =~= slashed(key@.take(0)));
    }
    while i < key.parts.len()
        invariant
            i <= key.parts.len(),
            key@.len() == key.parts.len(),
            text@ == slashed(key@.take(i as int)),
        decreases key.parts.len() - i,
    {
        let mut part: Vec<char> = key.parts[i].clone();
        proof {
            assert(part@ =~= key@[i as int]);
            assert(key@.take(i + 1) =~= key@.take(i as int).push(key@[i as int]));
            lemma_slashed_push(key@.take(i as int), key@[i as int]);
        }
        part.push('/');
        text.append(&mut part);
        proof {
            assert(text@ =~= slashed(key@.take(i + 1)));
        }
        i = i + 1;
    }
    proof {
        assert(key@.take(i as int) =~= key@);
    }
    text
}

/// Whether two paths that were split have the same components.
pub fn same_key(x: &PathKey, y: &PathKey) -> (r: bool)
    ensures
        r == (x@ == y@),
{
    if x.parts.len() != y.parts.len() {
        proof {
            assert(x@.len() == x.parts.len() && y@.len() == y.parts.len());
        }
        return false;
    }
    let mut i: usize = 0;
    while i < x.parts.len()
        invariant
            i <= x.parts.len(),
            x.parts.len() == y.parts.len(),
            forall|k: int| 0 <= k < i ==> x@[k] == y@[k],
        decreases x.parts.len() - i,
    {
        if !same_chars(&x.parts[i], &y.parts[i]) {
            proof {
                assert(x@[i as int] != y@[i as int]);
            }
            return false;
        }
        proof {
            assert(x@[i as int] == y@[i as int]);
        }
        i = i + 1;
    }
    proof {
        assert(x@ =~= y@);
    }
    true
}

/// Whether two texts are the same path, component by component.
pub fn same_path(a: &str, b: &str) -> (r: bool)
    ensures
        r == (components(a@) == components(b@)),
{
    let x: PathKey = path_key(a);
    let y: PathKey = path_key(b);
    same_key(&x, &y)
}

/// Whether a path reaches below the folder it is relative to.
pub open spec fn nested(path: Seq<char>) -> bool {
    components(path).len() > 1
}

/// The last component of a path, when it is a name.
pub open spec fn last_name(path: Seq<char>) -> Option<Seq<char>> {
    let parts = components(path);
    if parts.len() > 0 && component_class(parts.last()) == 3 {
        Some(parts.last())
    } else {
        None
    }
}

/// The last component of a path, when it is a name.
pub fn name_of(path: &str) -> (name: Option<String>)
    ensures
        match name {
            Some(text) => last_name(path@) == Some(text@),
            None => last_name(path@) is None,
        },
{
    let key = path_key(path);
    let n: usize = key.parts.len();
    if n > 0 && class_of(&key.parts[n - 1]) == 3 {
        Some(from_chars(&key.parts[n - 1]))
    } else {
        None
    }
}

/// What the views call the file: its name, or the whole path if it has none.
pub open spec fn shown_name(path: Seq<char>) -> Seq<char> {
    match last_name(path) {
        Some(name) => name,
        None => path,
    }
}

/// The name a path is shown under.
pub fn display_file_name(path: &String) -> (name: String)
    ensures
        name@ == shown_name(path@),
{
    match name_of(path.as_str()) {
        Some(name) => name,
        None => path.clone(),
    }
}

/// `rel` seen from `base`; an absolute `rel` stands on its own.
pub open spec fn joined(base: Seq<char>, rel: Seq<char>) -> Seq<char> {
    if rel.len() > 0 && rel[0] == '/' {
        rel
    } else if base.len() == 0 || base.last() == '/' {
        base + rel
    } else {
        base.push('/') + rel
    }
}

/// Joins a path onto a base folder.
pub fn join(base: &str, rel: &str) -> (path: String)
    ensures
        path@ == joined(base@, rel@),
{
    let b: Vec<char> = to_chars(base);
    let r: Vec<char> = to_chars(rel);
    if r.len() > 0 && r[0] == '/' {
        return from_chars(&r);
    }
    let mut out: Vec<char> = b.clone();
    proof {
        assert(out@ =~= base@);
    }
    if !(b.len() == 0 || b[b.len() - 1] == '/') {
        out.push('/');
    }
    let ghost head = out@;
    let mut i: usize = 0;
    while i < r.len()
        invariant
            i <= r.len(),
            out@ == head + r@.take(i as int),
        decreases r.len() - i,
    {
        out.push(r[i]);
        proof {
            assert(head + r@.take(i + 1) =~= (head + r@.take(i as int)).push(r@[i as int]));
        }
        i = i + 1;
    }
    proof {
        assert(r@.take(i as int) =~= r@);
    }
    from_chars(&out)
}

} // verus!
