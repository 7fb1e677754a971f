//! The search index: one entry per prompt name.
use vstd::prelude::*;
use crate::naming::{lowercase, to_lowercase};
use crate::text::{first_line, first_line_of};
use crate::prompt::Prompt;
use crate::resolver::views;
use crate::text::chars_of;

verus! {

/// What the index knows of a prompt.  The identifier is a UUID's 128-bit
/// value; the timestamp is in milliseconds since the Unix epoch.
#[derive(Clone, Debug)]
pub struct IndexEntry {
    /// The prompt's identifier.
    pub id: u128,
    /// The prompt's name.
    pub name: String,
    /// The first line of the content.
    pub preview: String,
    /// The whole content, for searching.
    pub content: String,
    /// The prompt's tags.
    pub tags: Vec<String>,
    /// Where the prompt lives: "prompts", "archive", or a folder path.
    pub location: String,
    /// When the prompt was last changed.
    pub modified: i64,
}

/// The index: entries with pairwise different names (`names_unique`), which
/// `new` establishes and `upsert` and `remove` keep.
#[derive(Clone, Debug)]
pub struct Index {
    /// The version of the index format.
    pub version: u32,
    /// When the index last changed, in milliseconds since the Unix epoch.
    pub updated: Option<i64>,
    /// The entries.
    pub entries: Vec<IndexEntry>,
}

/// No two entries share a name.
pub open spec fn names_unique(entries: Seq<IndexEntry>) -> bool {
    forall|i: int, j: int|
        0 <= i < entries.len() && 0 <= j < entries.len() && i != j ==> (#[trigger] entries[i]).name@
            != (#[trigger] entries[j]).name@
}

/// The position of the entry named `name`, searching from `i` on.
pub open spec fn position_from(entries: Seq<IndexEntry>, name: Seq<char>, i: int) -> Option<int>
    decreases entries.len() - i,
{
    if i < 0 || i >= entries.len() {
        None
    } else if entries[i].name@ == name {
        Some(i)
    } else {
        position_from(entries, name, i + 1)
    }
}

/// The position of the entry named `name`.
pub open spec fn position(entries: Seq<IndexEntry>, name: Seq<char>) -> Option<int> {
    position_from(entries, name, 0)
}

/// The entries among the first `k` that satisfy `keep`, in order.
pub open spec fn kept(entries: Seq<IndexEntry>, keep: spec_fn(IndexEntry) -> bool, k: int) -> Seq<
    IndexEntry,
>
    decreases k,
{
    if k <= 0 {
        Seq::empty()
    } else if keep(entries[k - 1]) {
        kept(entries, keep, k - 1).push(entries[k - 1])
    } else {
        kept(entries, keep, k - 1)
    }
}

/// `needle` occurs in `hay`.
pub open spec fn occurs_in(needle: Seq<char>, hay: Seq<char>) -> bool {
    exists|i: int| 0 <= i && i + needle.len() <= hay.len() && #[trigger] hay.subrange(i, i + needle.len()) == needle
}

/// An entry matches a search for `query` when the lowercase query occurs in
/// its lowercase name or its lowercase content.
pub open spec fn matches_query(e: IndexEntry, query: Seq<char>) -> bool {
    occurs_in(lowercase(query), lowercase(e.name@)) || occurs_in(lowercase(query), lowercase(e.content@))
}

/// `a` comes before `b` in the lexicographic order of code points.
pub open spec fn text_lt(a: Seq<char>, b: Seq<char>) -> bool
    decreases a.len(),
{
    if a.len() == 0 {
        b.len() > 0
    } else if b.len() == 0 {
        false
    } else if a[0] != b[0] {
        a[0] < b[0]
    } else {
        text_lt(a.drop_first(), b.drop_first())
    }
}

/// Each text comes before the next.
pub open spec fn ascending(v: Seq<Seq<char>>) -> bool {
    forall|i: int| 0 <= i < v.len() - 1 ==> text_lt(#[trigger] v[i], v[i + 1])
}

/// No text occurs twice.
pub open spec fn distinct(v: Seq<Seq<char>>) -> bool {
    forall|i: int, j: int| 0 <= i < v.len() && 0 <= j < v.len() && i != j ==> #[trigger] v[i] != #[trigger] v[j]
}

/// `t` is a tag of one of `entries`.
pub open spec fn tagged(entries: Seq<IndexEntry>, t: Seq<char>) -> bool {
    exists|i: int| 0 <= i < entries.len() && views((#[trigger] entries[i]).tags@).contains(t)
}

proof fn lemma_text_lt_total(a: Seq<char>, b: Seq<char>)
    ensures
        a == b || text_lt(a, b) || text_lt(b, a),
        !(text_lt(a, b) && text_lt(b, a)),
        !text_lt(a, a),
    decreases a.len(),
{
    if a.len() > 0 && b.len() > 0 && a[0] == b[0] {
        lemma_text_lt_total(a.drop_first(), b.drop_first());
        if a.drop_first() == b.drop_first() {
            assert(a =~= seq![a[0]] + a.drop_first());
            assert(b =~= seq![b[0]] + b.drop_first());
        }
    }
    if a.len() > 0 {
        lemma_text_lt_total(a.drop_first(), a.drop_first());
    }
    if a.len() == 0 && b.len() == 0 {
        assert(a =~= b);
    }
}

/// Whether `a` comes before `b` in the order of code points.
fn less_than(a: &Vec<char>, b: &Vec<char>) -> (r: bool)
    ensures
        r == text_lt(a@, b@),
{
    let mut i: usize = 0;
    assert(a@.skip(0) =~= a@);
    assert(b@.skip(0) =~= b@);
    while i < a.len() && i < b.len() && a[i] == b[i]
        invariant
            i <= a.len(),
            i <= b.len(),
            text_lt(a@, b@) == text_lt(a@.skip(i as int), b@.skip(i as int)),
        decreases a.len() - i,
    {
        assert(a@.skip(i as int).drop_first() =~= a@.skip(i + 1));
        assert(b@.skip(i as int).drop_first() =~= b@.skip(i + 1));
        i = i + 1;
    }
    if i == a.len() {
        i < b.len()
    } else if i == b.len() {
        false
    } else {
        a[i] < b[i]
    }
}

/// Inserts `t` into the ascending, distinct `tags` unless it is there already.
fn insert_sorted(tags: &mut Vec<Vec<char>>, t: Vec<char>)
    requires
        ascending(crate::splice::texts(old(tags)@)),
        distinct(crate::splice::texts(old(tags)@)),
    ensures
        ascending(crate::splice::texts(final(tags)@)),
        distinct(crate::splice::texts(final(tags)@)),
        forall|x: Seq<char>|
            crate::splice::texts(final(tags)@).contains(x) <==> (crate::splice::texts(old(tags)@).contains(x)
                || x == t@),
{
    let ghost old_v = crate::splice::texts(tags@);
    let mut p: usize = 0;
    while p < tags.len() && less_than(&tags[p], &t)
        invariant
            p <= tags.len(),
            tags@ == old(tags)@,
            old_v == crate::splice::texts(tags@),
            forall|j: int| 0 <= j < p ==> text_lt(#[trigger] old_v[j], t@),
        decreases tags.len() - p,
    {
        p = p + 1;
    }
    if p < tags.len() && !less_than(&t, &tags[p]) {
        proof {
            lemma_text_lt_total(t@, old_v[p as int]);
            assert(old_v[p as int] == t@);
        }
        return;
    }
    proof {
        assert forall|j: int| p <= j < old_v.len() implies text_lt(t@, #[trigger] old_v[j]) by {
            lemma_ascending_from(old_v, p as int, j);
            if p < j {
                lemma_text_lt_trans(t@, old_v[p as int], old_v[j]);
            }
        }
    }
    tags.insert(p, t);
    proof {
        let v = crate::splice::texts(tags@);
        assert(v =~= old_v.insert(p as int, t@));
        assert forall|i: int| 0 <= i < v.len() - 1 implies text_lt(#[trigger] v[i], v[i + 1]) by {
            if i + 1 < p {
            } else if i + 1 == p {
            } else if i == p {
            } else {
                assert(v[i] == old_v[i - 1]);
                assert(v[i + 1] == old_v[i]);
            }
        }
        assert forall|i: int, j: int| 0 <= i < v.len() && 0 <= j < v.len() && i != j implies #[trigger] v[i]
            != #[trigger] v[j] by {
            if i == p as int {
                if j < p {
                    lemma_text_lt_total(old_v[j], t@);
                } else {
                    lemma_text_lt_total(t@, old_v[j - 1]);
                }
            } else if j == p as int {
                if i < p {
                    lemma_text_lt_total(old_v[i], t@);
                } else {
                    lemma_text_lt_total(t@, old_v[i - 1]);
                }
            } else {
                let i0 = if i < p { i } else { i - 1 };
                let j0 = if j < p { j } else { j - 1 };
                assert(old_v[i0] != old_v[j0]);
            }
        }
        assert forall|x: Seq<char>| v.contains(x) <==> (old_v.contains(x) || x == t@) by {
            if v.contains(x) {
                let i = choose|i: int| 0 <= i < v.len() && v[i] == x;
                if i < p {
                    assert(old_v[i] == x);
                } else if i > p {
                    assert(old_v[i - 1] == x);
                }
            }
            if old_v.contains(x) {
                let i = choose|i: int| 0 <= i < old_v.len() && old_v[i] == x;
                if i < p {
                    assert(v[i] == x);
                } else {
                    assert(v[i + 1] == x);
                }
            }
            if x == t@ {
                assert(v[p as int] == x);
            }
        }
    }
}

/// Inserts every one of `tags` into the ascending, distinct `sorted`.
fn insert_all(sorted: &mut Vec<Vec<char>>, tags: &Vec<String>)
    requires
        ascending(crate::splice::texts(old(sorted)@)),
        distinct(crate::splice::texts(old(sorted)@)),
    ensures
        ascending(crate::splice::texts(final(sorted)@)),
        distinct(crate::splice::texts(final(sorted)@)),
        forall|x: Seq<char>|
            crate::splice::texts(final(sorted)@).contains(x) <==> (crate::splice::texts(
                old(sorted)@,
            ).contains(x) || views(tags@).contains(x)),
{
    let ghost before = crate::splice::texts(sorted@);
    let mut m: usize = 0;
    while m < tags.len()
        invariant
            m <= tags.len(),
            before == crate::splice::texts(old(sorted)@),
            ascending(crate::splice::texts(sorted@)),
            distinct(crate::splice::texts(sorted@)),
            forall|x: Seq<char>|
                #[trigger] crate::splice::texts(sorted@).contains(x) <==> (before.contains(x) || views(
                    tags@.take(m as int),
                ).contains(x)),
        decreases tags.len() - m,
    {
        let t = chars_of(tags[m].as_str());
        let ghost w = views(tags@.take(m as int));
        let ghost prev = crate::splice::texts(sorted@);
        let ghost tv = t@;
        assert(tv == tags@[m as int]@);
        assert forall|x: Seq<char>| #[trigger] prev.contains(x) <==> (before.contains(x) || w.contains(x)) by {
            assert(crate::splice::texts(sorted@).contains(x) <==> (before.contains(x) || views(
                tags@.take(m as int),
            ).contains(x)));
        }
        insert_sorted(sorted, t);
        proof {
            assert(views(tags@.take(m + 1)) =~= w.push(tags@[m as int]@));
            assert forall|x: Seq<char>| #[trigger] w.push(tags@[m as int]@).contains(x) <==> (w.contains(x)
                || x == tags@[m as int]@) by {
                if w.push(tags@[m as int]@).contains(x) {
                    let i = choose|i: int| 0 <= i < w.len() + 1 && w.push(tags@[m as int]@)[i] == x;
                    if i < w.len() {
                        assert(w[i] == x);
                    }
                }
                if w.contains(x) {
                    let i = choose|i: int| 0 <= i < w.len() && w[i] == x;
                    assert(w.push(tags@[m as int]@)[i] == x);
                }
                if x == tags@[m as int]@ {
                    assert(w.push(tags@[m as int]@)[w.len() as int] == x);
                }
            }
            assert forall|x: Seq<char>| #[trigger] crate::splice::texts(sorted@).contains(x) <==> (
            before.contains(x) || views(tags@.take(m + 1)).contains(x)) by {
                assert(crate::splice::texts(sorted@).contains(x) <==> (prev.contains(x) || x == tv));
                assert(prev.contains(x) <==> (before.contains(x) || w.contains(x)));
                assert(w.push(tags@[m as int]@).contains(x) <==> (w.contains(x) || x == tags@[m as int]@));
            }
        }
        m = m + 1;
    }
    assert(tags@.take(m as int) =~= tags@);
    assert forall|x: Seq<char>| #[trigger] crate::splice::texts(sorted@).contains(x) <==> (before.contains(x)
        || views(tags@).contains(x)) by {
        assert(views(tags@.take(m as int)) == views(tags@));
    }
}

/// In an ascending sequence every text after position `p` comes after the one at `p`.
proof fn lemma_ascending_from(v: Seq<Seq<char>>, p: int, j: int)
    requires
        ascending(v),
        0 <= p <= j < v.len(),
    ensures
        p == j || text_lt(v[p], v[j]),
    decreases j - p,
{
    if p < j {
        lemma_ascending_from(v, p, j - 1);
        if p < j - 1 {
            lemma_text_lt_trans(v[p], v[j - 1], v[j]);
        }
    }
}

proof fn lemma_text_lt_trans(a: Seq<char>, b: Seq<char>, c: Seq<char>)
    requires
        text_lt(a, b),
        text_lt(b, c),
    ensures
        text_lt(a, c),
    decreases a.len(),
{
    if a.len() > 0 && b.len() > 0 && c.len() > 0 && a[0] == b[0] && b[0] == c[0] {
        lemma_text_lt_trans(a.drop_first(), b.drop_first(), c.drop_first());
    }
}

/// The position of the entry named `name`.
fn find_position(entries: &Vec<IndexEntry>, name: &str) -> (r: Option<usize>)
    ensures
        match r {
            Some(i) => position(entries@, name@) == Some(i as int) && i < entries.len(),
            None => position(entries@, name@) is None,
        },
{
    let key = name.to_owned();
    let mut i: usize = 0;
    while i < entries.len()
        invariant
            i <= entries.len(),
            key@ == name@,
            position(entries@, name@) == position_from(entries@, name@, i as int),
        decreases entries.len() - i,
    {
        if entries[i].name == key {
            return Some(i);
        }
        i = i + 1;
    }
    None
}

/// Whether `needle` occurs in `hay`.
fn occurs(needle: &Vec<char>, hay: &Vec<char>) -> (r: bool)
    ensures
        r == occurs_in(needle@, hay@),
{
    if needle.len() > hay.len() {
        return false;
    }
    let mut i: usize = 0;
    while i <= hay.len() - needle.len()
        invariant
            needle.len() <= hay.len(),
            i <= hay.len() - needle.len() + 1,
            forall|k: int| 0 <= k < i ==> #[trigger] hay@.subrange(k, k + needle.len()) != needle@,
        decreases hay.len() - needle.len() + 1 - i,
    {
        let mut j: usize = 0;
        while j < needle.len() && hay[i + j] == needle[j]
            invariant
                j <= needle.len(),
                i + needle.len() <= hay.len(),
                forall|m: int| 0 <= m < j ==> hay@[i + m] == needle@[m],
            decreases needle.len() - j,
        {
            j = j + 1;
        }
        if j == needle.len() {
            assert(hay@.subrange(i as int, i + needle.len()) =~= needle@);
            return true;
        }
        assert(hay@.subrange(i as int, i + needle.len())[j as int] != needle@[j as int]);
        i = i + 1;
    }
    proof {
        if occurs_in(needle@, hay@) {
            let k = choose|k: int| 0 <= k && k + needle.len() <= hay.len() && #[trigger] hay@.subrange(k, k + needle.len()) == needle@;
            assert(hay@.subrange(k, k + needle.len()) != needle@);
        }
    }
    false
}

impl Index {
    /// A new empty index, updated at `now`.
    pub fn new(now: i64) -> (r: Self)
        ensures
            r.version == 1,
            r.updated == Some(now),
            r.entries@.len() == 0,
            names_unique(r.entries@),
    {
        Index { version: 1, updated: Some(now), entries: Vec::new() }
    }

    /// Adds `entry`, replacing the entry of the same name if there is one;
    /// the index is marked updated at `now`.
    pub fn upsert(&mut self, entry: IndexEntry, now: i64)
        requires
            names_unique(old(self).entries@),
        ensures
            names_unique(final(self).entries@),
            final(self).entries@ == match position(old(self).entries@, entry.name@) {
                Some(i) => old(self).entries@.update(i, entry),
                None => old(self).entries@.push(entry),
            },
            final(self).version == old(self).version,
            final(self).updated == Some(now),
    {
        let ghost old_entries = self.entries@;
        match find_position(&self.entries, entry.name.as_str()) {
            Some(i) => {
                self.entries.set(i, entry);
                proof {
                    assert forall|a: int, b: int|
                        0 <= a < self.entries.len() && 0 <= b < self.entries.len() && a != b implies (
                        #[trigger] self.entries@[a]).name@ != (#[trigger] self.entries@[b]).name@ by {
                        lemma_position_found(old_entries, entry.name@, 0);
                        if a != i && b != i {
                            assert(old_entries[a].name@ != old_entries[b].name@);
                        }
                    }
                }
            },
            None => {
                proof {
                    lemma_position_absent(old_entries, entry.name@, 0);
                }
                self.entries.push(entry);
                proof {
                    assert forall|a: int, b: int|
                        0 <= a < self.entries.len() && 0 <= b < self.entries.len() && a != b implies (
                        #[trigger] self.entries@[a]).name@ != (#[trigger] self.entries@[b]).name@ by {
                        if a < old_entries.len() && b < old_entries.len() {
                            assert(old_entries[a].name@ != old_entries[b].name@);
                        }
                    }
                }
            },
        }
        self.updated = Some(now);
    }

    /// Removes the entry named `name` and hands it back, if there is one; a
    /// removal marks the index updated at `now`.
    pub fn remove(&mut self, name: &str, now: i64) -> (r: Option<IndexEntry>)
        requires
            names_unique(old(self).entries@),
        ensures
            names_unique(final(self).entries@),
            match position(old(self).entries@, name@) {
                Some(i) => r == Some(old(self).entries@[i]) && final(self).entries@
                    == old(self).entries@.remove(i) && final(self).updated == Some(now),
                None => r is None && final(self).entries@ == old(self).entries@ && final(self).updated
                    == old(self).updated,
            },
            final(self).version == old(self).version,
    {
        match find_position(&self.entries, name) {
            Some(i) => {
                let ghost old_entries = self.entries@;
                let entry = self.entries.remove(i);
                proof {
                    assert forall|a: int, b: int|
                        0 <= a < self.entries.len() && 0 <= b < self.entries.len() && a != b implies (
                        #[trigger] self.entries@[a]).name@ != (#[trigger] self.entries@[b]).name@ by {
                        let a0 = if a < i { a } else { a + 1 };
                        let b0 = if b < i { b } else { b + 1 };
                        assert(self.entries@[a] == old_entries[a0]);
                        assert(self.entries@[b] == old_entries[b0]);
                        assert(old_entries[a0].name@ != old_entries[b0].name@);
                    }
                }
                self.updated = Some(now);
                Some(entry)
            },
            None => None,
        }
    }

    /// The entry named `name`, if there is one.
    pub fn get(&self, name: &str) -> (r: Option<&IndexEntry>)
        ensures
            match position(self.entries@, name@) {
                Some(i) => r == Some(&self.entries@[i]),
                None => r is None,
            },
    {
        match find_position(&self.entries, name) {
            Some(i) => Some(&self.entries[i]),
            None => None,
        }
    }

    /// All entries.
    pub fn all_entries(&self) -> (r: &[IndexEntry])
        ensures
            r@ == self.entries@,
    {
        self.entries.as_slice()
    }

    /// The names of all entries.
    pub fn all_names(&self) -> (r: Vec<String>)
        ensures
            views(r@) == self.entries@.map_values(|e: IndexEntry| e.name@),
    {
        let mut out: Vec<String> = Vec::new();
        let mut k: usize = 0;
        while k < self.entries.len()
            invariant
                k <= self.entries.len(),
                views(out@) == self.entries@.take(k as int).map_values(|e: IndexEntry| e.name@),
            decreases self.entries.len() - k,
        {
            let ghost before = views(out@);
            out.push(self.entries[k].name.clone());
            assert(views(out@) =~= before.push(self.entries@[k as int].name@));
            assert(self.entries@.take(k + 1).map_values(|e: IndexEntry| e.name@) =~= before.push(
                self.entries@[k as int].name@,
            ));
            k = k + 1;
        }
        assert(self.entries@.take(k as int) =~= self.entries@);
        out
    }

    /// Every tag of every entry, once each, in ascending order of code points.
    pub fn all_tags(&self) -> (r: Vec<String>)
        ensures
            ascending(views(r@)),
            distinct(views(r@)),
            forall|t: Seq<char>| views(r@).contains(t) <==> tagged(self.entries@, t),
    {
        let mut sorted: Vec<Vec<char>> = Vec::new();
        let mut k: usize = 0;
        while k < self.entries.len()
            invariant
                k <= self.entries.len(),
                ascending(crate::splice::texts(sorted@)),
                distinct(crate::splice::texts(sorted@)),
                forall|t: Seq<char>|
                    #[trigger] crate::splice::texts(sorted@).contains(t) <==> tagged(
                        self.entries@.take(k as int),
                        t,
                    ),
            decreases self.entries.len() - k,
        {
            let ghost before = crate::splice::texts(sorted@);
            assert forall|t: Seq<char>| #[trigger] before.contains(t) <==> tagged(
                self.entries@.take(k as int),
                t,
            ) by {
                assert(crate::splice::texts(sorted@).contains(t) <==> tagged(
                    self.entries@.take(k as int),
                    t,
                ));
            }
            insert_all(&mut sorted, &self.entries[k].tags);
            proof {
                assert forall|t: Seq<char>| tagged(self.entries@.take(k + 1), t) <==> (tagged(
                    self.entries@.take(k as int),
                    t,
                ) || views(self.entries@[k as int].tags@).contains(t)) by {
                    let pre = self.entries@.take(k as int);
                    let nxt = self.entries@.take(k + 1);
                    if tagged(nxt, t) {
                        let i = choose|i: int| 0 <= i < nxt.len() && views((#[trigger] nxt[i]).tags@).contains(t);
                        if i < k {
                            assert(pre[i] == nxt[i]);
                        }
                    }
                    if tagged(pre, t) {
                        let i = choose|i: int| 0 <= i < pre.len() && views((#[trigger] pre[i]).tags@).contains(t);
                        assert(nxt[i] == pre[i]);
                    }
                    if views(self.entries@[k as int].tags@).contains(t) {
                        assert(nxt[k as int] == self.entries@[k as int]);
                    }
                }
                assert forall|t: Seq<char>| #[trigger] crate::splice::texts(sorted@).contains(t) <==> tagged(
                    self.entries@.take(k + 1),
                    t,
                ) by {
                    assert(crate::splice::texts(sorted@).contains(t) <==> (before.contains(t) || views(
                        self.entries@[k as int].tags@,
                    ).contains(t)));
                    assert(before.contains(t) <==> tagged(self.entries@.take(k as int), t));
                }
            }
            k = k + 1;
        }
        assert(self.entries@.take(k as int) =~= self.entries@);
        let mut out: Vec<String> = Vec::new();
        let mut i: usize = 0;
        while i < sorted.len()
            invariant
                i <= sorted.len(),
                views(out@) == crate::splice::texts(sorted@).take(i as int),
            decreases sorted.len() - i,
        {
            let ghost before = views(out@);
            let text = crate::text::string_of(&sorted[i]);
            out.push(text);
            assert(crate::splice::texts(sorted@)[i as int] == sorted@[i as int]@);
            assert(views(out@) =~= before.push(text@));
            assert(views(out@) =~= crate::splice::texts(sorted@).take(i + 1));
            i = i + 1;
        }
        assert(views(out@) =~= crate::splice::texts(sorted@));
        out
    }

    /// The entries whose lowercase name or content holds the lowercase `query`, in index order.
    pub fn search(&self, query: &str) -> (r: Vec<&IndexEntry>)
        ensures
            r@.len() == kept(self.entries@, |e: IndexEntry| matches_query(e, query@), self.entries@.len() as int).len(),
            forall|k: int| 0 <= k < r@.len() ==> *#[trigger] r@[k] == kept(
                self.entries@,
                |e: IndexEntry| matches_query(e, query@),
                self.entries@.len() as int,
            )[k],
    {
        let ghost keep = |e: IndexEntry| matches_query(e, query@);
        let q = chars_of(to_lowercase(query).as_str());
        let mut out: Vec<&IndexEntry> = Vec::new();
        let mut k: usize = 0;
        while k < self.entries.len()
            invariant
                k <= self.entries.len(),
                q@ == lowercase(query@),
                keep == (|e: IndexEntry| matches_query(e, query@)),
                out@.len() == kept(self.entries@, keep, k as int).len(),
                forall|j: int| 0 <= j < out@.len() ==> *#[trigger] out@[j] == kept(self.entries@, keep, k as int)[j],
            decreases self.entries.len() - k,
        {
            let e = &self.entries[k];
            let name = chars_of(to_lowercase(e.name.as_str()).as_str());
            let content = chars_of(to_lowercase(e.content.as_str()).as_str());
            if occurs(&q, &name) || occurs(&q, &content) {
                out.push(e);
            }
            k = k + 1;
        }
        out
    }

    /// The entries tagged `tag`, in index order.
    pub fn filter_by_tag(&self, tag: &str) -> (r: Vec<&IndexEntry>)
        ensures
            r@.len() == kept(self.entries@, |e: IndexEntry| views(e.tags@).contains(tag@), self.entries@.len() as int).len(),
            forall|k: int| 0 <= k < r@.len() ==> *#[trigger] r@[k] == kept(
                self.entries@,
                |e: IndexEntry| views(e.tags@).contains(tag@),
                self.entries@.len() as int,
            )[k],
    {
        let ghost keep = |e: IndexEntry| views(e.tags@).contains(tag@);
        let mut out: Vec<&IndexEntry> = Vec::new();
        let mut k: usize = 0;
        while k < self.entries.len()
            invariant
                k <= self.entries.len(),
                keep == (|e: IndexEntry| views(e.tags@).contains(tag@)),
                out@.len() == kept(self.entries@, keep, k as int).len(),
                forall|j: int| 0 <= j < out@.len() ==> *#[trigger] out@[j] == kept(self.entries@, keep, k as int)[j],
            decreases self.entries.len() - k,
        {
            let e = &self.entries[k];
            if has_tag(&e.tags, tag) {
                out.push(e);
            }
            k = k + 1;
        }
        out
    }

    /// The entries at `location`, in index order.
    pub fn filter_by_location(&self, location: &str) -> (r: Vec<&IndexEntry>)
        ensures
            r@.len() == kept(self.entries@, |e: IndexEntry| e.location@ == location@, self.entries@.len() as int).len(),
            forall|k: int| 0 <= k < r@.len() ==> *#[trigger] r@[k] == kept(
                self.entries@,
                |e: IndexEntry| e.location@ == location@,
                self.entries@.len() as int,
            )[k],
    {
        let ghost keep = |e: IndexEntry| e.location@ == location@;
        let key = location.to_owned();
        let mut out: Vec<&IndexEntry> = Vec::new();
        let mut k: usize = 0;
        while k < self.entries.len()
            invariant
                k <= self.entries.len(),
                key@ == location@,
                keep == (|e: IndexEntry| e.location@ == location@),
                out@.len() == kept(self.entries@, keep, k as int).len(),
                forall|j: int| 0 <= j < out@.len() ==> *#[trigger] out@[j] == kept(self.entries@, keep, k as int)[j],
            decreases self.entries.len() - k,
        {
            let e = &self.entries[k];
            if e.location == key {
                out.push(e);
            }
            k = k + 1;
        }
        out
    }
}

/// Whether `tag` is one of `tags`.
fn has_tag(tags: &Vec<String>, tag: &str) -> (r: bool)
    ensures
        r == views(tags@).contains(tag@),
{
    let key = tag.to_owned();
    let mut i: usize = 0;
    while i < tags.len()
        invariant
            i <= tags.len(),
            key@ == tag@,
            forall|j: int| 0 <= j < i ==> (#[trigger] tags@[j])@ != tag@,
        decreases tags.len() - i,
    {
        if tags[i] == key {
            assert(views(tags@)[i as int] == tag@);
            return true;
        }
        i = i + 1;
    }
    proof {
        if views(tags@).contains(tag@) {
            let j = choose|j: int| 0 <= j < views(tags@).len() && views(tags@)[j] == tag@;
            assert(tags@[j]@ == tag@);
        }
    }
    false
}

proof fn lemma_position_found(entries: Seq<IndexEntry>, name: Seq<char>, i: int)
    requires
        0 <= i,
    ensures
        position_from(entries, name, i) matches Some(p) ==> i <= p < entries.len() && entries[p].name@ == name,
    decreases entries.len() - i,
{
    if i < entries.len() && entries[i].name@ != name {
        lemma_position_found(entries, name, i + 1);
    }
}

proof fn lemma_position_absent(entries: Seq<IndexEntry>, name: Seq<char>, i: int)
    requires
        0 <= i,
        position_from(entries, name, i) is None,
    ensures
        forall|j: int| i <= j < entries.len() ==> (#[trigger] entries[j]).name@ != name,
    decreases entries.len() - i,
{
    if i < entries.len() {
        lemma_position_absent(entries, name, i + 1);
    }
}

impl IndexEntry {
    /// The entry for `prompt`, stored at `location`.
    pub fn from_prompt(prompt: &Prompt, location: &str) -> (r: Self)
        ensures
            r.id == prompt.id,
            r.name == prompt.name,
            r.preview@ == first_line_of(prompt.content@),
            r.content == prompt.content,
            r.tags@ == prompt.tags@,
            r.location@ == location@,
            r.modified == prompt.modified,
    {
        let mut tags: Vec<String> = Vec::new();
        let mut k: usize = 0;
        while k < prompt.tags.len()
            invariant
                k <= prompt.tags.len(),
                tags@ == prompt.tags@.take(k as int),
            decreases prompt.tags.len() - k,
        {
            tags.push(prompt.tags[k].clone());
            assert(tags@ =~= prompt.tags@.take(k + 1));
            k = k + 1;
        }
        assert(prompt.tags@.take(k as int) =~= prompt.tags@);
        IndexEntry {
            id: prompt.id,
            name: prompt.name.clone(),
            preview: first_line(prompt.content.as_str()),
            content: prompt.content.clone(),
            tags,
            location: location.to_owned(),
            modified: prompt.modified,
        }
    }
}

} // verus!
