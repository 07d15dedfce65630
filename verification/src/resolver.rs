//! The sticker index: keyword resolution and filtered, sorted listing.
//!
//! An index is the content of a pack's `_meta.json`: a map from a key (the
//! JSON key, normally the file name) to the sticker's metadata. It is held as
//! a vector of entries with distinct keys, and its view is the sequence of
//! `(key, metadata)` pairs. Which of several equally good matches a lookup
//! returns is not part of any contract.

use vstd::prelude::*;
use crate::paths::{join_spec, path_join};
use crate::text::{chars_eq, chars_of, contains_chars, contains_seq, lowercase, to_lowercase};

verus! {

/// Metadata of one sticker.
#[derive(Debug, Clone)]
pub struct StickerMeta {
    pub filename: String,
    pub ai_name: String,
    pub description: String,
    pub tags: Vec<String>,
}

/// The mathematical content of a `StickerMeta`.
pub struct StickerMetaView {
    pub filename: Seq<char>,
    pub ai_name: Seq<char>,
    pub description: Seq<char>,
    pub tags: Seq<Seq<char>>,
}

impl View for StickerMeta {
    type V = StickerMetaView;

    open spec fn view(&self) -> StickerMetaView {
        StickerMetaView {
            filename: self.filename@,
            ai_name: self.ai_name@,
            description: self.description@,
            tags: self.tags@.map_values(|t: String| t@),
        }
    }
}

/// A copy of a list of strings.
pub fn copy_strings(v: &Vec<String>) -> (r: Vec<String>)
    ensures
        r@ == v@,
{
    let mut out: Vec<String> = Vec::new();
    let mut i: usize = 0;
    while i < v.len()
        invariant
            0 <= i <= v@.len(),
            out@ == v@.take(i as int),
        decreases v@.len() - i,
    {
        out.push(v[i].clone());
        i = i + 1;
        proof {
            assert(out@ =~= v@.take(i as int));
        }
    }
    proof {
        assert(v@.take(v@.len() as int) =~= v@);
    }
    out
}

impl StickerMeta {
    /// A copy with the same content.
    pub fn copy(&self) -> (r: StickerMeta)
        ensures
            r@ == self@,
    {
        StickerMeta {
            filename: self.filename.clone(),
            ai_name: self.ai_name.clone(),
            description: self.description.clone(),
            tags: copy_strings(&self.tags),
        }
    }
}

/// One `_meta.json` entry: its key and the sticker's metadata.
#[derive(Debug, Clone)]
pub struct MetaEntry {
    pub key: String,
    pub meta: StickerMeta,
}

/// The keys of a sequence of entries are pairwise distinct.
pub open spec fn keys_distinct(entries: Seq<(Seq<char>, StickerMetaView)>) -> bool {
    forall|i: int, j: int|
        0 <= i < entries.len() && 0 <= j < entries.len() && i != j ==> #[trigger] entries[i].0
            != #[trigger] entries[j].0
}

/// The content of a list of entries.
pub open spec fn entries_view(v: Seq<MetaEntry>) -> Seq<(Seq<char>, StickerMetaView)> {
    v.map_values(|e: MetaEntry| (e.key@, e.meta@))
}

/// Some tag, lowercased, contains `lkw`.
pub open spec fn tag_matches(m: StickerMetaView, lkw: Seq<char>) -> bool {
    exists|t: int| 0 <= t < m.tags.len() && contains_seq(lowercase(#[trigger] m.tags[t]), lkw)
}

/// The description, lowercased, contains `lkw`.
pub open spec fn description_matches(m: StickerMetaView, lkw: Seq<char>) -> bool {
    contains_seq(lowercase(m.description), lkw)
}

/// Which entries the `tier`-th rule of `resolve` accepts: exact key, exact
/// AI name, a tag containing the lowercased keyword, a description
/// containing it.
pub open spec fn tier_matches(e: (Seq<char>, StickerMetaView), kw: Seq<char>, tier: int) -> bool {
    if tier == 1 {
        e.0 == kw
    } else if tier == 2 {
        e.1.ai_name == kw
    } else if tier == 3 {
        tag_matches(e.1, lowercase(kw))
    } else {
        description_matches(e.1, lowercase(kw))
    }
}

/// Some entry is accepted by rule `tier`.
pub open spec fn tier_hit(entries: Seq<(Seq<char>, StickerMetaView)>, kw: Seq<char>, tier: int) -> bool {
    exists|i: int| 0 <= i < entries.len() && tier_matches(#[trigger] entries[i], kw, tier)
}

/// The first rule (1 to 4) that accepts some entry, or 5 when none does.
pub open spec fn best_tier(entries: Seq<(Seq<char>, StickerMetaView)>, kw: Seq<char>) -> int {
    if tier_hit(entries, kw, 1) {
        1
    } else if tier_hit(entries, kw, 2) {
        2
    } else if tier_hit(entries, kw, 3) {
        3
    } else if tier_hit(entries, kw, 4) {
        4
    } else {
        5
    }
}

/// What `resolve` may return: the metadata of an entry accepted by the
/// first rule that accepts any entry, or nothing when no rule does.
pub open spec fn resolves_to(
    entries: Seq<(Seq<char>, StickerMetaView)>,
    kw: Seq<char>,
    r: Option<StickerMetaView>,
) -> bool {
    let t = best_tier(entries, kw);
    if t == 5 {
        r is None
    } else {
        exists|i: int|
            0 <= i < entries.len() && tier_matches(#[trigger] entries[i], kw, t) && r == Some(
                entries[i].1,
            )
    }
}

/// Whether the listing filter `lf` (already lowercased) selects `m`: the
/// lowercased file name, AI name, description or one of the tags contains it.
pub open spec fn list_selects(m: StickerMetaView, lf: Seq<char>) -> bool {
    ||| contains_seq(lowercase(m.filename), lf)
    ||| contains_seq(lowercase(m.ai_name), lf)
    ||| contains_seq(lowercase(m.description), lf)
    ||| tag_matches(m, lf)
}

/// The metadata that `list` returns, before sorting, in index order.
pub open spec fn selected(entries: Seq<(Seq<char>, StickerMetaView)>, filter: Option<Seq<char>>) -> Seq<
    StickerMetaView,
> {
    let metas = entries.map_values(|e: (Seq<char>, StickerMetaView)| e.1);
    match filter {
        None => metas,
        Some(f) => metas.filter(|m: StickerMetaView| list_selects(m, lowercase(f))),
    }
}

/// `a` sorts no later than `b` (`String`'s order: code points compared in
/// turn, a proper prefix first).
pub open spec fn text_le(a: Seq<char>, b: Seq<char>) -> bool
    decreases a.len(),
{
    if a.len() == 0 {
        true
    } else if b.len() == 0 {
        false
    } else if a[0] != b[0] {
        a[0] < b[0]
    } else {
        text_le(a.drop_first(), b.drop_first())
    }
}

/// Metadata in order of file name.
pub open spec fn sorted_by_filename(s: Seq<StickerMetaView>) -> bool {
    forall|i: int, j: int|
        0 <= i < j < s.len() ==> text_le(#[trigger] s[i].filename, #[trigger] s[j].filename)
}

pub proof fn lemma_text_le_total(a: Seq<char>, b: Seq<char>)
    ensures
        text_le(a, b) || text_le(b, a),
    decreases a.len(),
{
    if a.len() > 0 && b.len() > 0 && a[0] == b[0] {
        lemma_text_le_total(a.drop_first(), b.drop_first());
    }
}

pub proof fn lemma_text_le_refl(a: Seq<char>)
    ensures
        text_le(a, a),
    decreases a.len(),
{
    if a.len() > 0 {
        lemma_text_le_refl(a.drop_first());
    }
}

pub proof fn lemma_text_le_trans(a: Seq<char>, b: Seq<char>, c: Seq<char>)
    requires
        text_le(a, b),
        text_le(b, c),
    ensures
        text_le(a, c),
    decreases a.len(),
{
    if a.len() > 0 && b.len() > 0 && c.len() > 0 && a[0] == b[0] && b[0] == c[0] {
        lemma_text_le_trans(a.drop_first(), b.drop_first(), c.drop_first());
    }
}

/// The sticker index.
pub struct Resolver {
    sticker_dir: String,
    entries: Vec<MetaEntry>,
}

/// The content of a `Resolver`: its sticker directory and its entries.
pub struct ResolverView {
    pub dir: Seq<char>,
    pub entries: Seq<(Seq<char>, StickerMetaView)>,
}

impl View for Resolver {
    type V = ResolverView;

    closed spec fn view(&self) -> ResolverView {
        ResolverView { dir: self.sticker_dir@, entries: entries_view(self.entries@) }
    }
}

fn lower_chars(s: &str) -> (r: Vec<char>)
    ensures
        r@ == lowercase(s@),
{
    let l = to_lowercase(s);
    chars_of(l.as_str())
}

/// Whether some tag of `m`, lowercased, contains `lkw`.
fn any_tag_contains(m: &StickerMeta, lkw: &Vec<char>) -> (r: bool)
    ensures
        r == tag_matches(m@, lkw@),
{
    let mut t: usize = 0;
    while t < m.tags.len()
        invariant
            0 <= t <= m.tags@.len(),
            forall|k: int| 0 <= k < t ==> !contains_seq(lowercase(#[trigger] m@.tags[k]), lkw@),
        decreases m.tags@.len() - t,
    {
        let lt = lower_chars(m.tags[t].as_str());
        if contains_chars(&lt, lkw) {
            proof {
                assert(m@.tags[t as int] == m.tags@[t as int]@);
            }
            return true;
        }
        t = t + 1;
    }
    false
}

impl Resolver {
    #[verifier::type_invariant]
    spec fn distinct_keys(self) -> bool {
        keys_distinct(entries_view(self.entries@))
    }

    /// An empty index over the sticker directory `sticker_dir`.
    pub fn new(sticker_dir: String) -> (r: Resolver)
        ensures
            r@.dir == sticker_dir@,
            r@.entries.len() == 0,
    {
        Resolver { sticker_dir, entries: Vec::new() }
    }

    /// Replaces the whole index with `entries` (the parsed `_meta.json`) and
    /// returns how many entries it now holds.
    pub fn replace_entries(&mut self, entries: Vec<MetaEntry>) -> (n: usize)
        requires
            keys_distinct(entries_view(entries@)),
        ensures
            final(self)@.dir == old(self)@.dir,
            final(self)@.entries == entries_view(entries@),
            n == entries@.len(),
    {
        let n = entries.len();
        self.entries = entries;
        n
    }

    /// The sticker directory.
    pub fn sticker_dir(&self) -> (r: &str)
        ensures
            r@ == self@.dir,
    {
        self.sticker_dir.as_str()
    }

    /// The number of entries; the keys of the entries are pairwise distinct.
    pub fn len(&self) -> (n: usize)
        ensures
            n == self@.entries.len(),
            keys_distinct(self@.entries),
    {
        proof {
            use_type_invariant(self);
        }
        self.entries.len()
    }

    /// Whether `i`-th entry is accepted by rule `tier` of `resolve`.
    fn entry_matches(&self, i: usize, kw: &Vec<char>, lkw: &Vec<char>, tier: u8) -> (r: bool)
        requires
            i < self@.entries.len(),
            lkw@ == lowercase(kw@),
            1 <= tier <= 4,
        ensures
            r == tier_matches(self@.entries[i as int], kw@, tier as int),
    {
        let e = &self.entries[i];
        if tier == 1 {
            chars_eq(&chars_of(e.key.as_str()), kw)
        } else if tier == 2 {
            chars_eq(&chars_of(e.meta.ai_name.as_str()), kw)
        } else if tier == 3 {
            any_tag_contains(&e.meta, lkw)
        } else {
            contains_chars(&lower_chars(e.meta.description.as_str()), lkw)
        }
    }

    /// The first entry accepted by rule `tier`, if any.
    fn find_in_tier(&self, kw: &Vec<char>, lkw: &Vec<char>, tier: u8) -> (r: Option<usize>)
        requires
            lkw@ == lowercase(kw@),
            1 <= tier <= 4,
        ensures
            match r {
                Some(i) => i < self@.entries.len() && tier_matches(
                    self@.entries[i as int],
                    kw@,
                    tier as int,
                ),
                None => !tier_hit(self@.entries, kw@, tier as int),
            },
    {
        let mut i: usize = 0;
        while i < self.entries.len()
            invariant
                0 <= i <= self@.entries.len(),
                self@.entries.len() == self.entries@.len(),
                lkw@ == lowercase(kw@),
                1 <= tier <= 4,
                forall|k: int| 0 <= k < i ==> !tier_matches(#[trigger] self@.entries[k], kw@, tier as int),
            decreases self@.entries.len() - i,
        {
            if self.entry_matches(i, kw, lkw, tier) {
                return Some(i);
            }
            i = i + 1;
        }
        None
    }

    /// Resolves a keyword to a sticker. Rules, by priority: an exact key, an
    /// exact AI name, a tag that contains the keyword (ignoring case), a
    /// description that contains it (ignoring case).
    pub fn resolve(&self, keyword: &str) -> (r: Option<StickerMeta>)
        ensures
            keys_distinct(self@.entries),
            resolves_to(
                self@.entries,
                keyword@,
                match r {
                    Some(m) => Some(m@),
                    None => None,
                },
            ),
    {
        proof {
            use_type_invariant(self);
        }
        let kw = chars_of(keyword);
        let lkw = lower_chars(keyword);
        let mut tier: u8 = 1;
        while tier <= 4
            invariant
                1 <= tier <= 5,
                kw@ == keyword@,
                lkw@ == lowercase(kw@),
                keys_distinct(self@.entries),
                forall|t: int| 1 <= t < tier ==> !tier_hit(self@.entries, kw@, t),
            decreases 5 - tier,
        {
            match self.find_in_tier(&kw, &lkw, tier) {
                Some(i) => {
                    let m = self.entries[i].meta.copy();
                    proof {
                        assert(best_tier(self@.entries, kw@) == tier as int);
                        assert(self@.entries[i as int].1 == m@);
                    }
                    return Some(m);
                },
                None => {},
            }
            tier = tier + 1;
        }
        proof {
            assert(best_tier(self@.entries, kw@) == 5);
        }
        None
    }

    /// Whether the entry's metadata is selected by the lowercased filter.
    fn selects(m: &StickerMeta, lf: &Vec<char>) -> (r: bool)
        ensures
            r == list_selects(m@, lf@),
    {
        contains_chars(&lower_chars(m.filename.as_str()), lf) || contains_chars(
            &lower_chars(m.ai_name.as_str()),
            lf,
        ) || contains_chars(&lower_chars(m.description.as_str()), lf) || any_tag_contains(m, lf)
    }

    /// All stickers, or those the filter selects, sorted by file name.
    pub fn list(&self, filter: Option<&str>) -> (r: Vec<StickerMeta>)
        ensures
            r@.map_values(|m: StickerMeta| m@).to_multiset() == selected(
                self@.entries,
                match filter {
                    Some(f) => Some(f@),
                    None => None,
                },
            ).to_multiset(),
            sorted_by_filename(r@.map_values(|m: StickerMeta| m@)),
    {
        let ghost fv: Option<Seq<char>> = match filter {
            Some(f) => Some(f@),
            None => None,
        };
        let ghost metas = self@.entries.map_values(|e: (Seq<char>, StickerMetaView)| e.1);
        let ghost pred = |m: StickerMetaView|
            match fv {
                None => true,
                Some(f) => list_selects(m, lowercase(f)),
            };
        let lf: Vec<char> = match filter {
            Some(f) => lower_chars(f),
            None => Vec::new(),
        };
        let mut kept: Vec<StickerMeta> = Vec::new();
        let mut i: usize = 0;
        while i < self.entries.len()
            invariant
                0 <= i <= self@.entries.len(),
                self@.entries.len() == self.entries@.len(),
                metas == self@.entries.map_values(|e: (Seq<char>, StickerMetaView)| e.1),
                fv matches Some(f) ==> lf@ == lowercase(f),
                fv is Some <==> filter is Some,
                pred == (|m: StickerMetaView|
                    match fv {
                        None => true,
                        Some(f) => list_selects(m, lowercase(f)),
                    }),
                kept@.map_values(|m: StickerMeta| m@) == metas.take(i as int).filter(pred),
            decreases self@.entries.len() - i,
        {
            let m = &self.entries[i].meta;
            let take = match filter {
                Some(_) => Self::selects(m, &lf),
                None => true,
            };
            proof {
                assert(metas[i as int] == m@);
                assert(take == pred(m@));
                assert(metas.take(i + 1) =~= metas.take(i as int).push(m@));
                metas.take(i as int).lemma_filter_push(m@, pred);
            }
            if take {
                let c = m.copy();
                kept.push(c);
                proof {
                    assert(kept@.map_values(|m: StickerMeta| m@) =~= metas.take(i as int).filter(
                        pred,
                    ).push(m@));
                }
            }
            i = i + 1;
        }
        proof {
            assert(metas.take(i as int) =~= metas);
            assert(selected(self@.entries, fv) == metas.filter(pred)) by {
                match fv {
                    None => {
                        lemma_filter_all(metas, pred);
                    },
                    Some(f) => {
                        assert(pred =~= (|m: StickerMetaView| list_selects(m, lowercase(f))));
                    },
                }
            }
        }
        sort_by_filename(kept)
    }

    /// The path of a sticker's image: its file name joined onto the sticker
    /// directory.
    pub fn resolve_path(&self, meta: &StickerMeta) -> (r: String)
        ensures
            r@ == join_spec(self@.dir, meta@.filename),
    {
        path_join(self.sticker_dir.as_str(), meta.filename.as_str())
    }
}

pub(crate) proof fn lemma_filter_all<A>(s: Seq<A>, pred: spec_fn(A) -> bool)
    requires
        forall|x: A| #[trigger] pred(x),
    ensures
        s.filter(pred) == s,
    decreases s.len(),
{
    if s.len() > 0 {
        lemma_filter_all(s.drop_last(), pred);
        s.drop_last().lemma_filter_push(s.last(), pred);
        assert(s.drop_last().push(s.last()) =~= s);
    } else {
        assert(s.filter(pred) =~= s);
    }
}

/// Whether `a` sorts no later than `b`.
fn text_le_exec(a: &Vec<char>, b: &Vec<char>) -> (r: bool)
    ensures
        r == text_le(a@, b@),
{
    let mut i: usize = 0;
    proof {
        assert(a@.skip(0) =~= a@);
        assert(b@.skip(0) =~= b@);
    }
    while i < a.len() && i < b.len() && a[i] == b[i]
        invariant
            0 <= i <= a@.len(),
            i <= b@.len(),
            text_le(a@, b@) == text_le(a@.skip(i as int), b@.skip(i as int)),
        decreases a@.len() - i,
    {
        proof {
            assert(a@.skip(i as int).drop_first() =~= a@.skip(i + 1));
            assert(b@.skip(i as int).drop_first() =~= b@.skip(i + 1));
        }
        i = i + 1;
    }
    proof {
        if i < a@.len() && i < b@.len() {
            assert(a@.skip(i as int)[0] == a@[i as int]);
            assert(b@.skip(i as int)[0] == b@[i as int]);
        }
    }
    if i == a.len() {
        true
    } else if i == b.len() {
        false
    } else {
        a[i] < b[i]
    }
}

/// Sorts by file name (insertion sort; equal names keep their order).
pub fn sort_by_filename(items: Vec<StickerMeta>) -> (r: Vec<StickerMeta>)
    ensures
        r@.map_values(|m: StickerMeta| m@).to_multiset() == items@.map_values(
            |m: StickerMeta| m@,
        ).to_multiset(),
        sorted_by_filename(r@.map_values(|m: StickerMeta| m@)),
{
    broadcast use vstd::seq_lib::group_to_multiset_ensures;

    let ghost src = items@.map_values(|m: StickerMeta| m@);
    let mut out: Vec<StickerMeta> = Vec::new();
    let mut names: Vec<Vec<char>> = Vec::new();
    let mut i: usize = 0;
    while i < items.len()
        invariant
            0 <= i <= items@.len(),
            src == items@.map_values(|m: StickerMeta| m@),
            names@.len() == out@.len(),
            forall|k: int| 0 <= k < names@.len() ==> #[trigger] names@[k]@ == out@[k]@.filename,
            out@.map_values(|m: StickerMeta| m@).to_multiset() == src.take(i as int).to_multiset(),
            sorted_by_filename(out@.map_values(|m: StickerMeta| m@)),
        decreases items@.len() - i,
    {
        let x = items[i].copy();
        let xn = chars_of(x.filename.as_str());
        let mut p: usize = 0;
        while p < out.len() && text_le_exec(&names[p], &xn)
            invariant
                0 <= p <= out@.len(),
                names@.len() == out@.len(),
                forall|k: int| 0 <= k < names@.len() ==> #[trigger] names@[k]@ == out@[k]@.filename,
                xn@ == x@.filename,
                forall|k: int| 0 <= k < p ==> text_le(#[trigger] out@[k]@.filename, x@.filename),
            decreases out@.len() - p,
        {
            p = p + 1;
        }
        let ghost old_v = out@.map_values(|m: StickerMeta| m@);
        proof {
            if p < out@.len() {
                assert(!text_le(out@[p as int]@.filename, x@.filename));
                lemma_text_le_total(out@[p as int]@.filename, x@.filename);
            }
        }
        out.insert(p, x);
        names.insert(p, xn);
        proof {
            let nv = out@.map_values(|m: StickerMeta| m@);
            assert(nv =~= old_v.insert(p as int, x@));
            old_v.insert_ensures(p as int, x@);
            assert(old_v.insert(p as int, x@) =~= old_v.subrange(0, p as int).push(x@) + old_v.subrange(
                p as int,
                old_v.len() as int,
            ));
            assert(old_v =~= old_v.subrange(0, p as int) + old_v.subrange(p as int, old_v.len() as int));
            let left = old_v.subrange(0, p as int);
            let right = old_v.subrange(p as int, old_v.len() as int);
            vstd::seq_lib::lemma_multiset_commutative(left.push(x@), right);
            vstd::seq_lib::lemma_multiset_commutative(left, right);
            left.to_multiset_ensures();
            src.take(i as int).to_multiset_ensures();
            assert(left.push(x@).to_multiset() =~= left.to_multiset().insert(x@));
            assert(nv.to_multiset() =~= old_v.to_multiset().insert(x@));
            assert(src.take(i + 1) =~= src.take(i as int).push(x@));
            assert(src.take(i + 1).to_multiset() =~= src.take(i as int).to_multiset().insert(x@));
            assert(nv.to_multiset() =~= src.take(i + 1).to_multiset());
            assert forall|a: int, b: int| 0 <= a < b < nv.len() implies text_le(
                #[trigger] nv[a].filename,
                #[trigger] nv[b].filename,
            ) by {
                if b < p {
                } else if a > p {
                } else if a == p {
                    if p < old_v.len() {
                        lemma_text_le_refl(old_v[p as int].filename);
                        lemma_text_le_trans(x@.filename, old_v[p as int].filename, old_v[b - 1].filename);
                    }
                } else if b == p {
                } else {
                    // a < p < b
                }
            }
            assert forall|k: int| 0 <= k < names@.len() implies #[trigger] names@[k]@ == out@[k]@.filename by {
            }
        }
        i = i + 1;
    }
    proof {
        assert(src.take(i as int) =~= src);
    }
    out
}

} // verus!
