use vstd::prelude::*;

verus! {

/// The byte that, doubled, opens and closes a placeholder (`@@name@@`).
pub const MARK: u8 = 0x40;

/// The views of a sequence of byte vectors.
pub open spec fn views(v: Seq<Vec<u8>>) -> Seq<Seq<u8>> {
    Seq::new(v.len(), |i: int| v[i]@)
}

/// The first index at or after `j` that holds a marker byte, or the length.
pub open spec fn name_end(t: Seq<u8>, j: int) -> int
    decreases t.len() - j,
{
    if j < 0 || j >= t.len() || t[j] == MARK {
        j
    } else {
        name_end(t, j + 1)
    }
}

/// Where a placeholder opens at `i`, the index of its closing marker pair.
/// A placeholder is two markers, a non-empty name free of markers, and two
/// markers.
pub open spec fn placeholder_end(t: Seq<u8>, i: int) -> Option<int> {
    if 0 <= i && i + 1 < t.len() && t[i] == MARK && t[i + 1] == MARK {
        let e = name_end(t, i + 2);
        if e > i + 2 && e + 1 < t.len() && t[e + 1] == MARK {
            Some(e)
        } else {
            None
        }
    } else {
        None
    }
}

/// Whether a placeholder whose name the table holds opens at `i`.
pub open spec fn known_at(vars: Map<Seq<u8>, Seq<u8>>, t: Seq<u8>, i: int) -> bool {
    placeholder_end(t, i) matches Some(e) && vars.contains_key(t.subrange(i + 2, e))
}

/// The rendering of `t` from index `i` on: scanned left to right, each known
/// placeholder is replaced by its value, which is not scanned again; every
/// other byte is kept.
pub open spec fn render_from(vars: Map<Seq<u8>, Seq<u8>>, t: Seq<u8>, i: int) -> Seq<u8>
    decreases t.len() - i,
{
    if i < 0 || i >= t.len() {
        Seq::empty()
    } else if known_at(vars, t, i) {
        let e = placeholder_end(t, i)->Some_0;
        vars[t.subrange(i + 2, e)] + render_from(vars, t, e + 2)
    } else {
        seq![t[i]] + render_from(vars, t, i + 1)
    }
}

/// Whether the scan of `t` from index `i` on replaces at least one placeholder.
pub open spec fn substitutes_from(vars: Map<Seq<u8>, Seq<u8>>, t: Seq<u8>, i: int) -> bool
    decreases t.len() - i,
{
    if i < 0 || i >= t.len() {
        false
    } else if known_at(vars, t, i) {
        true
    } else {
        substitutes_from(vars, t, i + 1)
    }
}

/// The rendering of a whole template.
pub open spec fn render_spec(vars: Map<Seq<u8>, Seq<u8>>, t: Seq<u8>) -> Seq<u8> {
    render_from(vars, t, 0)
}

/// A table from variable name to value. Each name is held once, with the
/// value it was last given.
pub struct VarTable {
    keys: Vec<Vec<u8>>,
    values: Vec<Vec<u8>>,
    model: Ghost<Map<Seq<u8>, Seq<u8>>>,
}

impl View for VarTable {
    type V = Map<Seq<u8>, Seq<u8>>;

    closed spec fn view(&self) -> Map<Seq<u8>, Seq<u8>> {
        self.model@
    }
}

impl VarTable {
    /// The parallel vectors hold exactly the entries of the model, each name once.
    pub closed spec fn wf(&self) -> bool {
        &&& self.keys@.len() == self.values@.len()
        &&& forall|i: int|
            0 <= i < self.keys@.len() ==> #[trigger] self.model@.contains_key(self.keys@[i]@)
                && self.model@[self.keys@[i]@] == self.values@[i]@
        &&& forall|k: Seq<u8>|
            #[trigger] self.model@.contains_key(k) ==> exists|i: int|
                0 <= i < self.keys@.len() && #[trigger] self.keys@[i]@ == k
        &&& forall|i: int, j: int|
            0 <= i < j < self.keys@.len() ==> #[trigger] self.keys@[i]@ != #[trigger] self.keys@[j]@
    }

    /// An empty table.
    pub fn new() -> (r: VarTable)
        ensures
            r.wf(),
            r@ == Map::<Seq<u8>, Seq<u8>>::empty(),
    {
        VarTable { keys: Vec::new(), values: Vec::new(), model: Ghost(Map::empty()) }
    }

    /// The position of the name `t[start..end]` among the keys, if held.
    fn find(&self, t: &[u8], start: usize, end: usize) -> (r: Option<usize>)
        requires
            self.wf(),
            start <= end <= t@.len(),
        ensures
            match r {
                Some(i) => i < self.keys@.len() && self.keys@[i as int]@ == t@.subrange(
                    start as int,
                    end as int,
                ),
                None => !self@.contains_key(t@.subrange(start as int, end as int)),
            },
    {
        let mut i: usize = 0;
        while i < self.keys.len()
            invariant
                self.wf(),
                start <= end <= t@.len(),
                i <= self.keys@.len(),
                forall|j: int|
                    0 <= j < i ==> #[trigger] self.keys@[j]@ != t@.subrange(
                        start as int,
                        end as int,
                    ),
            decreases self.keys@.len() - i,
        {
            if range_eq(&self.keys[i], t, start, end) {
                return Some(i);
            }
            i = i + 1;
        }
        proof {
            if self@.contains_key(t@.subrange(start as int, end as int)) {
                let k = t@.subrange(start as int, end as int);
                let w = choose|j: int| 0 <= j < self.keys@.len() && #[trigger] self.keys@[j]@ == k;
                assert(self.keys@[w]@ != k);
            }
        }
        None
    }

    /// The value held for `key`, if any.
    pub fn get(&self, key: &[u8]) -> (r: Option<Vec<u8>>)
        requires
            self.wf(),
        ensures
            match r {
                Some(v) => self@.contains_key(key@) && v@ == self@[key@],
                None => !self@.contains_key(key@),
            },
    {
        match self.find(key, 0, key.len()) {
            Some(i) => {
                assert(key@.subrange(0, key@.len() as int) == key@);
                assert(self.model@.contains_key(self.keys@[i as int]@));
                Some(copy_bytes(self.values[i].as_slice()))
            },
            None => {
                assert(key@.subrange(0, key@.len() as int) == key@);
                None
            },
        }
    }

    /// Sets `key` to `value`, replacing any earlier value of `key`.
    pub fn insert(&mut self, key: &[u8], value: &[u8])
        requires
            old(self).wf(),
        ensures
            final(self).wf(),
            final(self)@ == old(self)@.insert(key@, value@),
    {
        let found = self.find(key, 0, key.len());
        assert(key@.subrange(0, key@.len() as int) == key@);
        let ghost m0 = self.model@;
        match found {
            Some(i) => {
                self.values.set(i, copy_bytes(value));
                self.model = Ghost(m0.insert(key@, value@));
                assert forall|k: Seq<u8>| #[trigger] self.model@.contains_key(k) implies exists|
                    j: int,
                | 0 <= j < self.keys@.len() && #[trigger] self.keys@[j]@ == k by {
                    if k != key@ {
                        assert(m0.contains_key(k));
                    } else {
                        assert(self.keys@[i as int]@ == k);
                    }
                }
            },
            None => {
                let ghost k0 = self.keys@;
                self.keys.push(copy_bytes(key));
                self.values.push(copy_bytes(value));
                self.model = Ghost(m0.insert(key@, value@));
                let ghost n = self.keys@.len() - 1;
                assert(self.keys@[n]@ == key@);
                assert forall|k: Seq<u8>| #[trigger] self.model@.contains_key(k) implies exists|
                    j: int,
                | 0 <= j < self.keys@.len() && #[trigger] self.keys@[j]@ == k by {
                    if k != key@ {
                        assert(m0.contains_key(k));
                        let w = choose|j: int| 0 <= j < k0.len() && #[trigger] k0[j]@ == k;
                        assert(self.keys@[w] == k0[w]);
                    } else {
                        assert(self.keys@[n]@ == k);
                    }
                }
            },
        }
    }
}

/// Whether rewriting a line replaced any placeholder, and the new line if it did.
pub enum ChangeString {
    Changed(Vec<u8>),
    Unchanged,
}

/// Where a placeholder opens at `i`, the index of its closing marker pair.
fn placeholder_at(t: &[u8], i: usize) -> (r: Option<usize>)
    requires
        i < t@.len(),
    ensures
        match r {
            Some(e) => placeholder_end(t@, i as int) == Some(e as int),
            None => placeholder_end(t@, i as int) is None,
        },
{
    if i >= t.len() - 1 || t[i] != MARK || t[i + 1] != MARK {
        return None;
    }
    let mut j: usize = i + 2;
    while j < t.len() && t[j] != MARK
        invariant
            i + 2 <= j <= t@.len(),
            name_end(t@, j as int) == name_end(t@, i + 2),
        decreases t@.len() - j,
    {
        j = j + 1;
    }
    if j > i + 2 && j < t.len() - 1 && t[j + 1] == MARK {
        Some(j)
    } else {
        None
    }
}

/// Appends the bytes of `s` to `out`.
pub(crate) fn append_bytes(out: &mut Vec<u8>, s: &[u8])
    ensures
        final(out)@ == old(out)@ + s@,
{
    let mut i: usize = 0;
    while i < s.len()
        invariant
            i <= s@.len(),
            out@ == old(out)@ + s@.subrange(0, i as int),
        decreases s@.len() - i,
    {
        out.push(s[i]);
        i = i + 1;
        assert(out@ =~= old(out)@ + s@.subrange(0, i as int));
    }
    assert(s@.subrange(0, s@.len() as int) == s@);
}

/// Renders `t`, and tells whether any placeholder was replaced.
fn render_scan(vars: &VarTable, t: &[u8]) -> (r: (Vec<u8>, bool))
    requires
        vars.wf(),
    ensures
        r.0@ == render_spec(vars@, t@),
        r.1 == substitutes_from(vars@, t@, 0),
{
    let mut out: Vec<u8> = Vec::new();
    let mut hit = false;
    let mut i: usize = 0;
    while i < t.len()
        invariant
            vars.wf(),
            i <= t@.len(),
            render_from(vars@, t@, 0) == out@ + render_from(vars@, t@, i as int),
            substitutes_from(vars@, t@, 0) == (hit || substitutes_from(vars@, t@, i as int)),
        decreases t@.len() - i,
    {
        let mut next: usize = i + 1;
        let mut done = false;
        match placeholder_at(t, i) {
            Some(e) => {
                match vars.find(t, i + 2, e) {
                    Some(k) => {
                        assert(vars.model@.contains_key(vars.keys@[k as int]@));
                        append_bytes(&mut out, vars.values[k].as_slice());
                        hit = true;
                        next = e + 2;
                        done = true;
                    },
                    None => {},
                }
            },
            None => {},
        }
        if !done {
            out.push(t[i]);
        }
        proof {
            assert(out@ + render_from(vars@, t@, next as int) == render_from(vars@, t@, 0));
        }
        i = next;
    }
    (out, hit)
}

/// Renders a template: each placeholder whose name the table holds is
/// replaced by its value; everything else is kept as it is.
pub fn render(vars: &VarTable, template: &[u8]) -> (r: Vec<u8>)
    requires
        vars.wf(),
    ensures
        r@ == render_spec(vars@, template@),
{
    render_scan(vars, template).0
}

/// Rewrites one line under the rule of `render`, and says whether any
/// placeholder was replaced.
pub fn replace_line(vars: &VarTable, line: &[u8]) -> (r: ChangeString)
    requires
        vars.wf(),
    ensures
        match r {
            ChangeString::Changed(s) => substitutes_from(vars@, line@, 0) && s@ == render_spec(
                vars@,
                line@,
            ),
            ChangeString::Unchanged => !substitutes_from(vars@, line@, 0) && render_spec(
                vars@,
                line@,
            ) == line@,
        },
{
    proof {
        if !substitutes_from(vars@, line@, 0) {
            lemma_render_unchanged(vars@, line@, 0);
            assert(line@.subrange(0, line@.len() as int) =~= line@);
        }
    }
    let (out, hit) = render_scan(vars, line);
    if hit {
        ChangeString::Changed(out)
    } else {
        ChangeString::Unchanged
    }
}

/// A fresh vector with the bytes of `s`.
pub(crate) fn copy_bytes(s: &[u8]) -> (r: Vec<u8>)
    ensures
        r@ == s@,
{
    let mut r: Vec<u8> = Vec::new();
    let mut i: usize = 0;
    while i < s.len()
        invariant
            i <= s@.len(),
            r@ == s@.subrange(0, i as int),
        decreases s@.len() - i,
    {
        r.push(s[i]);
        i = i + 1;
        assert(r@ == s@.subrange(0, i as int));
    }
    assert(r@ == s@);
    r
}

/// Whether `k` equals `t[start..end]`.
fn range_eq(k: &Vec<u8>, t: &[u8], start: usize, end: usize) -> (r: bool)
    requires
        start <= end <= t@.len(),
    ensures
        r == (k@ == t@.subrange(start as int, end as int)),
{
    if k.len() != end - start {
        return false;
    }
    let mut i: usize = 0;
    while i < k.len()
        invariant
            k@.len() == end - start,
            start <= end <= t@.len(),
            i <= k@.len(),
            forall|j: int| 0 <= j < i ==> k@[j] == t@[start + j],
        decreases k@.len() - i,
    {
        if k[i] != t[start + i] {
            assert(k@[i as int] != t@.subrange(start as int, end as int)[i as int]);
            return false;
        }
        i = i + 1;
    }
    assert(k@ =~= t@.subrange(start as int, end as int));
    true
}

/// The placeholder for the name `k`: `@@k@@`.
pub open spec fn token(k: Seq<u8>) -> Seq<u8> {
    seq![MARK, MARK] + k + seq![MARK, MARK]
}

/// The pieces joined, with `sep` between each two of them.
pub open spec fn join_with(ps: Seq<Seq<u8>>, sep: Seq<u8>) -> Seq<u8>
    decreases ps.len(),
{
    if ps.len() == 0 {
        Seq::empty()
    } else if ps.len() == 1 {
        ps[0]
    } else {
        ps[0] + sep + join_with(ps.drop_first(), sep)
    }
}

/// Whether `s` holds no marker byte.
pub open spec fn marker_free(s: Seq<u8>) -> bool {
    forall|j: int| 0 <= j < s.len() ==> s[j] != MARK
}

proof fn lemma_name_end_at(t: Seq<u8>, j: int, e: int)
    requires
        0 <= j <= e < t.len(),
        t[e] == MARK,
        forall|m: int| j <= m < e ==> t[m] != MARK,
    ensures
        name_end(t, j) == e,
    decreases e - j,
{
    if j < e {
        lemma_name_end_at(t, j + 1, e);
    }
}

proof fn lemma_name_end_shift(a: Seq<u8>, b: Seq<u8>, m: int)
    requires
        0 <= m,
    ensures
        name_end(a + b, a.len() + m) == a.len() + name_end(b, m),
    decreases b.len() - m,
{
    if m < b.len() && b[m] != MARK {
        lemma_name_end_shift(a, b, m + 1);
    }
}

/// The scan only looks forward: rendering `a + b` from inside `b` is
/// rendering `b`.
proof fn lemma_render_shift(vars: Map<Seq<u8>, Seq<u8>>, a: Seq<u8>, b: Seq<u8>, j: int)
    requires
        0 <= j,
    ensures
        render_from(vars, a + b, a.len() + j) == render_from(vars, b, j),
    decreases b.len() - j,
{
    let t = a + b;
    let n = a.len() as int;
    if j < b.len() {
        if j + 1 < b.len() {
            lemma_name_end_shift(a, b, j + 2);
        }
        if placeholder_end(b, j) is Some {
            let e = placeholder_end(b, j)->Some_0;
            assert(placeholder_end(t, n + j) == Some(n + e));
            assert(t.subrange(n + j + 2, n + e) =~= b.subrange(j + 2, e));
            lemma_render_shift(vars, a, b, e + 2);
        } else {
            assert(placeholder_end(t, n + j) is None);
        }
        lemma_render_shift(vars, a, b, j + 1);
    }
}

/// Marker-free text is copied as it is, up to where it ends.
proof fn lemma_render_plain(vars: Map<Seq<u8>, Seq<u8>>, t: Seq<u8>, j: int, n: int)
    requires
        0 <= j <= n <= t.len(),
        forall|m: int| j <= m < n ==> t[m] != MARK,
    ensures
        render_from(vars, t, j) == t.subrange(j, n) + render_from(vars, t, n),
    decreases n - j,
{
    if j < n {
        lemma_render_plain(vars, t, j + 1, n);
        assert(t.subrange(j, n) =~= seq![t[j]] + t.subrange(j + 1, n));
    } else {
        assert(t.subrange(j, n) =~= Seq::<u8>::empty());
    }
}

/// Rendering a text without any placeholder from `i` on gives that text back.
proof fn lemma_render_identity_from(vars: Map<Seq<u8>, Seq<u8>>, t: Seq<u8>, i: int)
    requires
        0 <= i <= t.len(),
        forall|m: int| 0 <= m < t.len() ==> placeholder_end(t, m) is None,
    ensures
        render_from(vars, t, i) == t.subrange(i, t.len() as int),
    decreases t.len() - i,
{
    if i < t.len() {
        lemma_render_identity_from(vars, t, i + 1);
        assert(t.subrange(i, t.len() as int) =~= seq![t[i]] + t.subrange(
            i + 1,
            t.len() as int,
        ));
    } else {
        assert(t.subrange(i, t.len() as int) =~= Seq::<u8>::empty());
    }
}

/// Where the scan from `i` on replaces nothing, it copies the text.
proof fn lemma_render_unchanged(vars: Map<Seq<u8>, Seq<u8>>, t: Seq<u8>, i: int)
    requires
        0 <= i <= t.len(),
        !substitutes_from(vars, t, i),
    ensures
        render_from(vars, t, i) == t.subrange(i, t.len() as int),
    decreases t.len() - i,
{
    if i < t.len() {
        lemma_render_unchanged(vars, t, i + 1);
        assert(t.subrange(i, t.len() as int) =~= seq![t[i]] + t.subrange(
            i + 1,
            t.len() as int,
        ));
    } else {
        assert(t.subrange(i, t.len() as int) =~= Seq::<u8>::empty());
    }
}

/// A template in which no placeholder opens renders to itself, whatever the
/// table holds.
pub proof fn lemma_render_without_placeholders(vars: Map<Seq<u8>, Seq<u8>>, t: Seq<u8>)
    requires
        forall|i: int| 0 <= i < t.len() ==> placeholder_end(t, i) is None,
    ensures
        render_spec(vars, t) == t,
{
    lemma_render_identity_from(vars, t, 0);
    assert(t.subrange(0, t.len() as int) =~= t);
}

/// Rendering `p + @@k@@ + rest`, with `p` free of markers, keeps `p`, puts the
/// value of `k` in place of the placeholder, and renders `rest`.
proof fn lemma_render_piece(
    vars: Map<Seq<u8>, Seq<u8>>,
    k: Seq<u8>,
    p: Seq<u8>,
    rest: Seq<u8>,
)
    requires
        vars.contains_key(k),
        k.len() > 0,
        marker_free(k),
        marker_free(p),
    ensures
        render_spec(vars, p + token(k) + rest) == p + vars[k] + render_spec(vars, rest),
{
    let head = p + token(k);
    let t = head + rest;
    let n = p.len() as int;
    let e = n + 2 + k.len();
    assert(t[e] == MARK);
    assert forall|m: int| n + 2 <= m < e implies t[m] != MARK by {
        assert(t[m] == k[m - n - 2]);
    }
    lemma_name_end_at(t, n + 2, e);
    assert(t.subrange(n + 2, e) =~= k);
    assert(placeholder_end(t, n) == Some(e));
    assert forall|m: int| 0 <= m < n implies t[m] != MARK by {
        assert(t[m] == p[m]);
    }
    lemma_render_plain(vars, t, 0, n);
    assert(t.subrange(0, n) =~= p);
    lemma_render_shift(vars, head, rest, 0);
    assert(head.len() == e + 2);
}

/// Where `vars` maps the name `k` to `x`, and the text between the
/// placeholders holds no marker, every `@@k@@` is replaced by `x` and the text
/// around it is kept.
pub proof fn lemma_render_replaces_each(
    vars: Map<Seq<u8>, Seq<u8>>,
    k: Seq<u8>,
    pieces: Seq<Seq<u8>>,
)
    requires
        vars.contains_key(k),
        k.len() > 0,
        marker_free(k),
        forall|i: int| 0 <= i < pieces.len() ==> marker_free(#[trigger] pieces[i]),
    ensures
        render_spec(vars, join_with(pieces, token(k))) == join_with(pieces, vars[k]),
    decreases pieces.len(),
{
    if pieces.len() == 0 {
    } else if pieces.len() == 1 {
        let p = pieces[0];
        assert(marker_free(pieces[0]));
        assert forall|m: int| 0 <= m < p.len() implies p[m] != MARK by {}
        lemma_render_plain(vars, p, 0, p.len() as int);
        assert(p.subrange(0, p.len() as int) =~= p);
    } else {
        let rest = pieces.drop_first();
        assert forall|i: int| 0 <= i < rest.len() implies marker_free(#[trigger] rest[i]) by {
            assert(rest[i] == pieces[i + 1]);
        }
        lemma_render_replaces_each(vars, k, rest);
        assert(marker_free(pieces[0]));
        lemma_render_piece(vars, k, pieces[0], join_with(rest, token(k)));
        assert(pieces[0] + token(k) + join_with(rest, token(k)) == join_with(pieces, token(k)));
        assert(pieces[0] + vars[k] + join_with(rest, vars[k]) == join_with(pieces, vars[k]));
    }
}

} // verus!
