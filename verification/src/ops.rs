use vstd::prelude::*;
use vstd::slice::slice_index_get;
use crate::model::{AchievementsDat, ContentV, FileV, SpaceOptimizedString};
use crate::progress::reset_progress;
use crate::tags::bytes_eq;

verus! {

// ---------------------------------------------------------------------------
// Ascending lexicographic byte order, used by `list`.
// ---------------------------------------------------------------------------

/// Strict lexicographic order on byte strings: the empty string comes first,
/// then byte by byte, a proper prefix before its extensions.
pub open spec fn lex_lt(a: Seq<u8>, b: Seq<u8>) -> bool
    decreases a.len(),
{
    if b.len() == 0 {
        false
    } else if a.len() == 0 {
        true
    } else if a[0] < b[0] {
        true
    } else if a[0] > b[0] {
        false
    } else {
        lex_lt(a.drop_first(), b.drop_first())
    }
}

/// Lexicographic order is irreflexive.
pub proof fn lemma_lex_lt_irrefl(a: Seq<u8>)
    ensures
        !lex_lt(a, a),
    decreases a.len(),
{
    if a.len() > 0 {
        lemma_lex_lt_irrefl(a.drop_first());
    }
}

/// Lexicographic order is total: two strings compare one way, the other, or
/// are equal.
pub proof fn lemma_lex_lt_total(a: Seq<u8>, b: Seq<u8>)
    ensures
        lex_lt(a, b) || lex_lt(b, a) || a == b,
    decreases a.len(),
{
    if a.len() == 0 && b.len() == 0 {
        assert(a =~= b);
    } else if a.len() > 0 && b.len() > 0 {
        if a[0] == b[0] {
            lemma_lex_lt_total(a.drop_first(), b.drop_first());
            if a.drop_first() == b.drop_first() {
                assert(a =~= seq![a[0]] + a.drop_first());
                assert(b =~= seq![b[0]] + b.drop_first());
            }
        }
    }
}

/// Lexicographic order is transitive.
pub proof fn lemma_lex_lt_trans(a: Seq<u8>, b: Seq<u8>, c: Seq<u8>)
    requires
        lex_lt(a, b),
        lex_lt(b, c),
    ensures
        lex_lt(a, c),
    decreases a.len(),
{
    if a.len() > 0 && b.len() > 0 && c.len() > 0 {
        if a[0] == b[0] && b[0] == c[0] {
            lemma_lex_lt_trans(a.drop_first(), b.drop_first(), c.drop_first());
        }
    }
}

/// One step of the byte-by-byte comparison: equal heads defer to the tails.
proof fn lemma_lex_lt_skip(a: Seq<u8>, b: Seq<u8>, i: int)
    requires
        0 <= i,
        i < a.len(),
        i < b.len(),
        a[i] == b[i],
    ensures
        lex_lt(a.skip(i), b.skip(i)) == lex_lt(a.skip(i + 1), b.skip(i + 1)),
{
    assert(a.skip(i).drop_first() =~= a.skip(i + 1));
    assert(b.skip(i).drop_first() =~= b.skip(i + 1));
    assert(a.skip(i)[0] == a[i]);
    assert(b.skip(i)[0] == b[i]);
}

/// Compare two byte strings in ascending lexicographic byte order.
pub fn lex_lt_bytes(a: &[u8], b: &[u8]) -> (r: bool)
    ensures
        r == lex_lt(a@, b@),
{
    let mut i: usize = 0;
    proof {
        assert(a@.skip(0) =~= a@);
        assert(b@.skip(0) =~= b@);
    }
    while i < a.len() && i < b.len()
        invariant
            0 <= i <= a@.len(),
            0 <= i <= b@.len(),
            lex_lt(a@, b@) == lex_lt(a@.skip(i as int), b@.skip(i as int)),
        decreases a@.len() - i,
    {
        let x = *slice_index_get(a, i);
        let y = *slice_index_get(b, i);
        if x < y {
            proof {
                assert(a@.skip(i as int)[0] == a@[i as int]);
                assert(b@.skip(i as int)[0] == b@[i as int]);
            }
            return true;
        }
        if x > y {
            proof {
                assert(a@.skip(i as int)[0] == a@[i as int]);
                assert(b@.skip(i as int)[0] == b@[i as int]);
            }
            return false;
        }
        proof {
            lemma_lex_lt_skip(a@, b@, i as int);
        }
        i = i + 1;
    }
    proof {
        if i == a@.len() {
            assert(a@.skip(i as int).len() == 0);
        } else {
            assert(b@.skip(i as int).len() == 0);
            assert(a@.skip(i as int).len() > 0);
        }
    }
    a.len() < b.len()
}

// ---------------------------------------------------------------------------
// The editor operations.
// ---------------------------------------------------------------------------

/// What `delete` does to one content: a content whose id matches has its
/// progress reset; any other is untouched.
pub open spec fn spec_delete_content(c: ContentV, x: Seq<u8>) -> ContentV {
    if c.id == x {
        ContentV { tag: c.tag, id: c.id, progress: reset_progress(c.progress) }
    } else {
        c
    }
}

/// What `delete` does to a file: every content is run through
/// `spec_delete_content`; everything else is untouched.
pub open spec fn spec_delete_file(f: FileV, x: Seq<u8>) -> FileV {
    FileV {
        version: f.version,
        unused: f.unused,
        headers: f.headers,
        contents: Seq::new(f.contents.len(), |i: int| spec_delete_content(f.contents[i], x)),
        tracked_entries: f.tracked_entries,
    }
}

impl AchievementsDat {
    /// Reset the progress of every content whose id equals `id`,
    /// byte-for-byte. Headers, subobjects, tracked values and non-matching
    /// contents are untouched; a file with no matching content comes back
    /// unchanged.
    pub fn delete(self, id: &[u8]) -> (r: Self)
        ensures
            r@ == spec_delete_file(self@, id@),
    {
        let ghost orig = self@;
        let mut this = self;
        let n = this.contents.len();
        let mut i: usize = 0;
        while i < n
            invariant
                0 <= i <= n,
                this.contents@.len() == n,
                orig.contents.len() == n,
                this@.version == orig.version,
                this@.unused == orig.unused,
                this@.headers == orig.headers,
                this@.tracked_entries == orig.tracked_entries,
                forall|j: int| i <= j < n ==> #[trigger] this.contents@[j]@ == orig.contents[j],
                forall|j: int| 0 <= j < i ==> #[trigger] this.contents@[j]@ == spec_delete_content(
                    orig.contents[j],
                    id@,
                ),
            decreases n - i,
        {
            if bytes_eq(this.contents[i].id.bytes().as_slice(), id) {
                this.contents[i].progress.reset();
                proof {
                    assert(this.contents@[i as int]@ == spec_delete_content(
                        orig.contents[i as int],
                        id@,
                    ));
                }
            } else {
                proof {
                    assert(this.contents@[i as int]@ == spec_delete_content(
                        orig.contents[i as int],
                        id@,
                    ));
                }
            }
            i = i + 1;
        }
        proof {
            assert(this@.contents =~= spec_delete_file(orig, id@).contents);
        }
        this
    }
}

/// The collected row is strictly sorted ascending.
pub open spec fn sorted_strict(out: Seq<SpaceOptimizedString>) -> bool {
    forall|i: int, j: int| 0 <= i < j < out.len() ==> lex_lt(out[i]@, out[j]@)
}

/// The ids of a row of contents, in content order.
pub open spec fn content_ids(cs: Seq<ContentV>) -> Seq<Seq<u8>> {
    cs.map_values(|c: ContentV| c.id)
}

/// The byte strings of a row of space-optimized strings.
pub open spec fn string_views(v: Seq<SpaceOptimizedString>) -> Seq<Seq<u8>> {
    v.map_values(|s: SpaceOptimizedString| s@)
}

impl AchievementsDat {
    /// The deduplicated ids of every content, in ascending lexicographic
    /// byte order: each id of the file appears exactly once, and nothing
    /// else appears.
    pub fn list(&self) -> (r: Vec<SpaceOptimizedString>)
        ensures
            sorted_strict(r@),
            forall|i: int, j: int|
                #![trigger r@[i], r@[j]]
                0 <= i < j < r@.len() ==> r@[i]@ != r@[j]@,
            forall|i: int|
                #![trigger r@[i]]
                0 <= i < r@.len() ==> content_ids(self@.contents).contains(r@[i]@),
            forall|k: int|
                #![trigger self@.contents[k]]
                0 <= k < self@.contents.len() ==> string_views(r@).contains(
                    self@.contents[k].id,
                ),
    {
        let ghost cs = self@.contents;
        let mut out: Vec<SpaceOptimizedString> = Vec::new();
        let ghost mut wit: Seq<int> = Seq::empty();
        let ghost mut loc: Seq<int> = Seq::empty();
        let n = self.contents.len();
        let mut k: usize = 0;
        while k < n
            invariant
                0 <= k <= n,
                self.contents@.len() == n,
                cs == self@.contents,
                cs.len() == n,
                sorted_strict(out@),
                wit.len() == out@.len(),
                forall|i: int|
                    #![trigger wit[i]]
                    0 <= i < out@.len() ==> 0 <= wit[i] < k && out@[i]@ == cs[wit[i]].id,
                loc.len() == k,
                forall|k2: int|
                    #![trigger loc[k2]]
                    0 <= k2 < k ==> 0 <= loc[k2] < out@.len() && out@[loc[k2]]@ == cs[k2].id,
            decreases n - k,
        {
            let id = self.contents[k].id.bytes();
            let mut p: usize = 0;
            while p < out.len() && lex_lt_bytes(out[p].bytes().as_slice(), id.as_slice())
                invariant
                    0 <= p <= out@.len(),
                    id@ == cs[k as int].id,
                    0 <= k < cs.len(),
                    sorted_strict(out@),
                    forall|q: int| 0 <= q < p ==> lex_lt(#[trigger] out@[q]@, id@),
                decreases out@.len() - p,
            {
                p = p + 1;
            }
            let already = p < out.len() && bytes_eq(out[p].bytes().as_slice(), id.as_slice());
            if already {
                proof {
                    loc = loc.push(p as int);
                }
            } else {
                proof {
                    assert forall|q: int| p <= q < out@.len() implies lex_lt(
                        id@,
                        #[trigger] out@[q]@,
                    ) by {
                        lemma_lex_lt_total(id@, out@[p as int]@);
                        if q > p {
                            lemma_lex_lt_trans(id@, out@[p as int]@, out@[q]@);
                        }
                    }
                }
                let copied = vstd::slice::slice_to_vec(id.as_slice());
                let entry = SpaceOptimizedString { value: copied };
                let ghost prev = out@;
                let ghost prev_wit = wit;
                out.insert(p, entry);
                proof {
                    prev.insert_ensures(p as int, entry);
                    prev_wit.insert_ensures(p as int, k as int);
                    wit = prev_wit.insert(p as int, k as int);
                    loc = Seq::new((k + 1) as nat, |k2: int| if k2 == k as int {
                        p as int
                    } else if loc[k2] >= p as int {
                        loc[k2] + 1
                    } else {
                        loc[k2]
                    });
                    assert forall|i: int, j: int| 0 <= i < j < out@.len() implies lex_lt(
                        out@[i]@,
                        out@[j]@,
                    ) by {
                        if j < p {
                            assert(out@[i] == prev[i] && out@[j] == prev[j]);
                        } else if j == p {
                            assert(out@[i] == prev[i] && out@[j] == entry);
                        } else {
                            assert(out@[j] == prev[j - 1]);
                            if i < p {
                                assert(out@[i] == prev[i]);
                                if i < j - 1 {
                                    assert(lex_lt(prev[i]@, prev[j - 1]@));
                                } else {
                                    assert(lex_lt(prev[i]@, entry@));
                                    lemma_lex_lt_trans(prev[i]@, entry@, prev[j - 1]@);
                                }
                            } else if i == p {
                                assert(out@[i] == entry);
                                assert(lex_lt(entry@, prev[j - 1]@));
                            } else {
                                assert(out@[i] == prev[i - 1]);
                                assert(lex_lt(prev[i - 1]@, prev[j - 1]@));
                            }
                        }
                    }
                    assert forall|i: int| 0 <= i < out@.len() implies 0 <= wit[i] < k + 1
                        && out@[i]@ == cs[wit[i]].id by {
                        if i < p {
                            assert(out@[i] == prev[i] && wit[i] == prev_wit[i]);
                        } else if i == p {
                            assert(out@[i] == entry && wit[i] == k as int);
                        } else {
                            assert(out@[i] == prev[i - 1] && wit[i] == prev_wit[i - 1]);
                        }
                    }
                }
            }
            k = k + 1;
        }
        proof {
            assert forall|i: int| #![trigger out@[i]] 0 <= i < out@.len() implies content_ids(
                cs,
            ).contains(out@[i]@) by {
                assert(0 <= wit[i] < cs.len() && out@[i]@ == cs[wit[i]].id);
                assert(content_ids(cs)[wit[i]] == out@[i]@);
            }
            assert forall|k2: int| #![trigger cs[k2]] 0 <= k2 < cs.len() implies string_views(
                out@,
            ).contains(cs[k2].id) by {
                assert(0 <= loc[k2] < out@.len() && out@[loc[k2]]@ == cs[k2].id);
                assert(string_views(out@)[loc[k2]] == cs[k2].id);
            }
            assert forall|i: int, j: int| 0 <= i < j < out@.len() implies out@[i]@ != out@[j]@ by {
                if out@[i]@ == out@[j]@ {
                    lemma_lex_lt_irrefl(out@[i]@);
                }
            }
        }
        out
    }
}

/// Applying `delete` twice with the same id changes nothing after the first
/// time: the operation is idempotent on the file tree.
pub proof fn lemma_delete_idempotent(f: FileV, x: Seq<u8>)
    ensures
        spec_delete_file(spec_delete_file(f, x), x) == spec_delete_file(f, x),
{
    let once = spec_delete_file(f, x);
    let twice = spec_delete_file(once, x);
    assert forall|i: int| 0 <= i < twice.contents.len() implies twice.contents[i]
        == once.contents[i] by {
        assert(once.contents[i] == spec_delete_content(f.contents[i], x));
    }
    assert(twice.contents =~= once.contents);
}

} // verus!
