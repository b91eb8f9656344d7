//! Ordering the generations that a new manifest lists as stale: by id, each id once.
use vstd::prelude::*;
use crate::manifest::{CredentialGeneration, CredentialManifest, ChatGptKeyringRecord};

verus! {

/// `a` comes before `b` in the order of `String`: code point by code point, a prefix first.
pub open spec fn id_less(a: Seq<char>, b: Seq<char>) -> bool
    decreases a.len(),
{
    if a.len() == 0 {
        b.len() > 0
    } else if b.len() == 0 {
        false
    } else if (a[0] as u32) < (b[0] as u32) {
        true
    } else if (a[0] as u32) > (b[0] as u32) {
        false
    } else {
        id_less(a.skip(1), b.skip(1))
    }
}

proof fn lemma_char_eq(a: char, b: char)
    requires
        a as u32 == b as u32,
    ensures
        a == b,
{
}

/// The order is strict and total.
pub proof fn lemma_id_less_total(a: Seq<char>, b: Seq<char>)
    ensures
        !(id_less(a, b) && id_less(b, a)),
        a != b ==> id_less(a, b) || id_less(b, a),
        !id_less(a, a),
    decreases a.len(),
{
    if a.len() > 0 && b.len() > 0 && a[0] as u32 == b[0] as u32 {
        lemma_id_less_total(a.skip(1), b.skip(1));
        lemma_char_eq(a[0], b[0]);
        if a.skip(1) == b.skip(1) {
            assert(a =~= seq![a[0]] + a.skip(1));
            assert(b =~= seq![b[0]] + b.skip(1));
        }
    }
    if a.len() > 0 {
        lemma_id_less_total(a.skip(1), a.skip(1));
    }
    if a.len() == 0 && b.len() == 0 {
        assert(a =~= b);
    }
}

/// The order is transitive.
pub proof fn lemma_id_less_transitive(a: Seq<char>, b: Seq<char>, c: Seq<char>)
    requires
        id_less(a, b),
        id_less(b, c),
    ensures
        id_less(a, c),
    decreases a.len(),
{
    if a.len() > 0 && b.len() > 0 && c.len() > 0 && a[0] as u32 == b[0] as u32 && b[0] as u32 == c[0] as u32 {
        lemma_id_less_transitive(a.skip(1), b.skip(1), c.skip(1));
    }
}

/// Compares two ids in the order of `String`.
pub fn id_before(a: &str, b: &str) -> (r: bool)
    ensures
        r == id_less(a@, b@),
{
    let xs = crate::text::chars_of(a);
    let ys = crate::text::chars_of(b);
    let mut i: usize = 0;
    assert(xs@.skip(0) =~= xs@);
    assert(ys@.skip(0) =~= ys@);
    while i < xs.len() && i < ys.len()
        invariant
            xs@ == a@,
            ys@ == b@,
            i <= xs@.len(),
            i <= ys@.len(),
            id_less(a@, b@) == id_less(xs@.skip(i as int), ys@.skip(i as int)),
        decreases xs@.len() - i,
    {
        let x = xs[i] as u32;
        let y = ys[i] as u32;
        if x < y {
            return true;
        }
        if x > y {
            return false;
        }
        assert(xs@.skip(i as int).skip(1) =~= xs@.skip(i + 1));
        assert(ys@.skip(i as int).skip(1) =~= ys@.skip(i + 1));
        i = i + 1;
    }
    i == xs.len() && i < ys.len()
}

impl CredentialGeneration {
    /// A copy of this generation.
    pub fn copy(&self) -> (r: Self)
        ensures
            r == *self,
    {
        CredentialGeneration {
            id: self.id.clone(),
            id_token_chunks: self.id_token_chunks,
            access_token_chunks: self.access_token_chunks,
            refresh_token_chunks: self.refresh_token_chunks,
        }
    }
}

/// Element `i` is the first of `c` with its id.
pub open spec fn first_with_id(c: Seq<CredentialGeneration>, i: int) -> bool {
    forall|j: int| 0 <= j < i ==> #[trigger] c[j].id@ != c[i].id@
}

/// The ids of `out` increase strictly.
pub open spec fn strictly_sorted_by_id(out: Seq<CredentialGeneration>) -> bool {
    forall|i: int, j: int| 0 <= i < j < out.len() ==> id_less(#[trigger] out[i].id@, #[trigger] out[j].id@)
}

/// `x` is, in `c`, the first generation with its id.
pub open spec fn first_of_its_id(c: Seq<CredentialGeneration>, x: CredentialGeneration) -> bool {
    exists|i: int| 0 <= i < c.len() && first_with_id(c, i) && x == c[i]
}

/// `out` holds `x`.
pub open spec fn lists(out: Seq<CredentialGeneration>, x: CredentialGeneration) -> bool {
    exists|k: int| 0 <= k < out.len() && out[k] == x
}

/// `out` holds, ordered by id, the first generation of `c` with each id, and nothing else
/// (what sorting `c` stably by id and then dropping repeated ids gives).
pub open spec fn sorted_first_by_id(c: Seq<CredentialGeneration>, out: Seq<CredentialGeneration>) -> bool {
    &&& strictly_sorted_by_id(out)
    &&& forall|k: int| 0 <= k < out.len() ==> #[trigger] first_of_its_id(c, out[k])
    &&& forall|i: int| 0 <= i < c.len() && #[trigger] first_with_id(c, i) ==> lists(out, c[i])
}

/// `x` is the first generation of `c` with its id, among the first `t`.
#[verifier::opaque]
pub open spec fn kept_from(c: Seq<CredentialGeneration>, t: int, x: CredentialGeneration) -> bool {
    exists|i: int| 0 <= i < t && first_with_id(c, i) && x == c[i]
}

/// `out` holds `x`.
#[verifier::opaque]
pub open spec fn holds(out: Seq<CredentialGeneration>, x: CredentialGeneration) -> bool {
    exists|k: int| 0 <= k < out.len() && out[k] == x
}

/// `out` holds a generation with this id.
#[verifier::opaque]
pub open spec fn holds_id(out: Seq<CredentialGeneration>, id: Seq<char>) -> bool {
    exists|k: int| 0 <= k < out.len() && out[k].id@ == id
}

/// What ordering the first `t` generations of `c` has produced so far.
pub open spec fn sorted_prefix(c: Seq<CredentialGeneration>, t: int, out: Seq<CredentialGeneration>) -> bool {
    &&& strictly_sorted_by_id(out)
    &&& forall|k: int| 0 <= k < out.len() ==> #[trigger] kept_from(c, t, out[k])
    &&& forall|i: int| 0 <= i < t && #[trigger] first_with_id(c, i) ==> holds(out, c[i])
    &&& forall|i: int| 0 <= i < t ==> #[trigger] holds_id(out, c[i].id@)
}

/// A generation whose id is already present is not the first with it.
proof fn lemma_skip_repeated(c: Seq<CredentialGeneration>, t: int, out: Seq<CredentialGeneration>, j: int)
    requires
        0 <= t < c.len(),
        sorted_prefix(c, t, out),
        0 <= j < out.len(),
        out[j].id@ == c[t].id@,
    ensures
        sorted_prefix(c, t + 1, out),
{
    reveal(kept_from);
    reveal(holds_id);
    assert(!first_with_id(c, t)) by {
        assert(kept_from(c, t, out[j]));
        let i = choose|i: int| 0 <= i < t && first_with_id(c, i) && out[j] == c[i];
        assert(c[i].id@ == c[t].id@);
    }
    assert forall|k: int| 0 <= k < out.len() implies #[trigger] kept_from(c, t + 1, out[k]) by {
        assert(kept_from(c, t, out[k]));
        let i = choose|i: int| 0 <= i < t && first_with_id(c, i) && out[k] == c[i];
        assert(0 <= i < t + 1 && first_with_id(c, i) && out[k] == c[i]);
    }
    assert forall|i: int| 0 <= i < t + 1 implies #[trigger] holds_id(out, c[i].id@) by {
        if i == t {
            assert(out[j].id@ == c[i].id@);
        } else {
            assert(holds_id(out, c[i].id@));
        }
    }
}

/// A generation with a new id, put where its id belongs, keeps the order.
proof fn lemma_insert_new(c: Seq<CredentialGeneration>, t: int, out: Seq<CredentialGeneration>, j: int)
    requires
        0 <= t < c.len(),
        sorted_prefix(c, t, out),
        0 <= j <= out.len(),
        forall|k: int| 0 <= k < j ==> id_less(#[trigger] out[k].id@, c[t].id@),
        j < out.len() ==> out[j].id@ != c[t].id@ && !id_less(out[j].id@, c[t].id@),
    ensures
        sorted_prefix(c, t + 1, out.insert(j, c[t])),
{
    reveal(kept_from);
    reveal(holds);
    reveal(holds_id);
    let g = c[t];
    let new_out = out.insert(j, g);
    if j < out.len() {
        lemma_id_less_total(out[j].id@, g.id@);
    }
    assert(first_with_id(c, t)) by {
        assert forall|i: int| 0 <= i < t implies #[trigger] c[i].id@ != c[t].id@ by {
            assert(holds_id(out, c[i].id@));
            let k = choose|k: int| 0 <= k < out.len() && out[k].id@ == c[i].id@;
            if c[i].id@ == c[t].id@ {
                if k < j {
                    assert(id_less(out[k].id@, g.id@));
                    lemma_id_less_total(g.id@, g.id@);
                } else if k > j {
                    assert(id_less(out[j].id@, out[k].id@));
                    lemma_id_less_transitive(g.id@, out[j].id@, out[k].id@);
                    lemma_id_less_total(g.id@, g.id@);
                }
            }
        }
    }
    assert forall|a: int, b: int| 0 <= a < b < new_out.len() implies
        id_less(#[trigger] new_out[a].id@, #[trigger] new_out[b].id@) by {
        if b < j {
            assert(new_out[a] == out[a]);
            assert(new_out[b] == out[b]);
        } else if a < j && b == j {
            assert(new_out[a] == out[a]);
        } else if a < j && b > j {
            assert(new_out[a] == out[a]);
            assert(new_out[b] == out[b - 1]);
            assert(id_less(out[a].id@, out[b - 1].id@));
        } else if a == j {
            assert(new_out[b] == out[b - 1]);
            if b - 1 > j {
                assert(id_less(out[j].id@, out[b - 1].id@));
                lemma_id_less_transitive(g.id@, out[j].id@, out[b - 1].id@);
            }
        } else {
            assert(new_out[a] == out[a - 1]);
            assert(new_out[b] == out[b - 1]);
            assert(id_less(out[a - 1].id@, out[b - 1].id@));
        }
    }
    assert forall|k: int| 0 <= k < new_out.len() implies #[trigger] kept_from(c, t + 1, new_out[k]) by {
        if k < j {
            assert(new_out[k] == out[k]);
            assert(kept_from(c, t, out[k]));
            let i = choose|i: int| 0 <= i < t && first_with_id(c, i) && out[k] == c[i];
            assert(0 <= i < t + 1 && first_with_id(c, i) && new_out[k] == c[i]);
        } else if k == j {
            assert(new_out[k] == c[t]);
        } else {
            assert(new_out[k] == out[k - 1]);
            assert(kept_from(c, t, out[k - 1]));
            let i = choose|i: int| 0 <= i < t && first_with_id(c, i) && out[k - 1] == c[i];
            assert(0 <= i < t + 1 && first_with_id(c, i) && new_out[k] == c[i]);
        }
    }
    assert forall|i: int| 0 <= i < t + 1 && #[trigger] first_with_id(c, i) implies holds(new_out, c[i]) by {
        if i == t {
            assert(new_out[j] == c[i]);
        } else {
            assert(holds(out, c[i]));
            let k = choose|k: int| 0 <= k < out.len() && out[k] == c[i];
            if k < j {
                assert(new_out[k] == out[k]);
            } else {
                assert(new_out[k + 1] == out[k]);
            }
        }
    }
    assert forall|i: int| 0 <= i < t + 1 implies #[trigger] holds_id(new_out, c[i].id@) by {
        if i == t {
            assert(new_out[j].id@ == c[i].id@);
        } else {
            assert(holds_id(out, c[i].id@));
            let k = choose|k: int| 0 <= k < out.len() && out[k].id@ == c[i].id@;
            if k < j {
                assert(new_out[k] == out[k]);
            } else {
                assert(new_out[k + 1] == out[k]);
            }
        }
    }
}

proof fn lemma_sorted_done(c: Seq<CredentialGeneration>, out: Seq<CredentialGeneration>)
    requires
        sorted_prefix(c, c.len() as int, out),
    ensures
        sorted_first_by_id(c, out),
{
    reveal(kept_from);
    reveal(holds);
    assert forall|k: int| 0 <= k < out.len() implies #[trigger] first_of_its_id(c, out[k]) by {
        assert(kept_from(c, c.len() as int, out[k]));
    }
    assert forall|i: int| 0 <= i < c.len() && #[trigger] first_with_id(c, i) implies lists(out, c[i]) by {
        assert(holds(out, c[i]));
    }
}

/// Orders generations by id, keeping the first of each id.
pub fn sort_dedup_by_id(c: &Vec<CredentialGeneration>) -> (out: Vec<CredentialGeneration>)
    ensures
        sorted_first_by_id(c@, out@),
{
    let mut out: Vec<CredentialGeneration> = Vec::new();
    let mut t: usize = 0;
    proof {
        reveal(kept_from);
        reveal(holds);
        reveal(holds_id);
    }
    while t < c.len()
        invariant
            t <= c@.len(),
            sorted_prefix(c@, t as int, out@),
        decreases c@.len() - t,
    {
        let g = &c[t];
        let mut j: usize = 0;
        while j < out.len() && id_before(out[j].id.as_str(), g.id.as_str())
            invariant
                j <= out@.len(),
                forall|k: int| 0 <= k < j ==> id_less(#[trigger] out@[k].id@, g.id@),
            decreases out@.len() - j,
        {
            j = j + 1;
        }
        if j < out.len() && out[j].id == g.id {
            proof {
                lemma_skip_repeated(c@, t as int, out@, j as int);
            }
        } else {
            proof {
                lemma_insert_new(c@, t as int, out@, j as int);
            }
            out.insert(j, g.copy());
        }
        t = t + 1;
    }
    proof {
        lemma_sorted_done(c@, out@);
    }
    out
}

/// The generations that a manifest written over `current` lists as stale: those the
/// current manifest lists, stale and active, ordered by id with each id once.
pub open spec fn stale_candidates(current: Option<ChatGptKeyringRecord>) -> Seq<CredentialGeneration> {
    match current {
        Some(ChatGptKeyringRecord::Current(m)) => m.stale_generations@.push(m.active_generation),
        _ => Seq::empty(),
    }
}

/// The generations a record lists, stale ones first, then the active one (none for a
/// legacy record or no record).
pub fn listed_generations(current: &Option<ChatGptKeyringRecord>) -> (out: Vec<CredentialGeneration>)
    ensures
        out@ == stale_candidates(*current),
{
    let mut candidates: Vec<CredentialGeneration> = Vec::new();
    if let Some(ChatGptKeyringRecord::Current(manifest)) = current {
        for i in 0..manifest.stale_generations.len()
            invariant
                candidates@ == manifest.stale_generations@.take(i as int),
        {
            candidates.push(manifest.stale_generations[i].copy());
            assert(candidates@ =~= manifest.stale_generations@.take(i + 1));
        }
        assert(manifest.stale_generations@.take(manifest.stale_generations@.len() as int)
            =~= manifest.stale_generations@);
        candidates.push(manifest.active_generation.copy());
    }
    candidates
}

/// The stale generations of a new manifest: those the current record lists, ordered by id.
pub fn stale_generations_after(current: &Option<ChatGptKeyringRecord>) -> (out: Vec<CredentialGeneration>)
    ensures
        sorted_first_by_id(stale_candidates(*current), out@),
{
    sort_dedup_by_id(&listed_generations(current))
}

} // verus!
