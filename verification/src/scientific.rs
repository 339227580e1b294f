//! Planning shared evaluations across coupled residual blocks.
//!
//! This does not execute or cache the evaluations; it makes safe reuse explicit for the runtime
//! that owns state and versioning.
use vstd::prelude::*;

verus! {

/// What a property evaluation does outside its validity range.
#[derive(Clone, Copy, Debug, PartialEq, Eq, Structural)]
pub enum GuardPolicy {
    Error,
    Warn,
    ExplicitExtrapolation,
}

/// What kind of local datum an element kernel reads.
#[derive(Clone, Copy, Debug, PartialEq, Eq, Structural)]
pub enum LocalInputKind {
    FieldValue,
    FieldGradient,
    GeometryFactor,
    QuadratureWeight,
    Property,
    ConstitutiveResponse,
}

/// One named input slot of an element kernel.
#[derive(Clone, Debug, PartialEq, Eq)]
pub struct LocalBinding {
    pub name: String,
    pub slot: u32,
    pub kind: LocalInputKind,
}

/// The local contract of one residual block's element kernel.
#[derive(Clone, Debug, PartialEq, Eq)]
pub struct ElementKernelContract {
    pub block: KernelBlockId,
    pub inputs: Vec<LocalBinding>,
    pub outputs: Vec<String>,
    pub assembled: bool,
    pub matrix_free: bool,
    pub shared_evaluations: Vec<String>,
}

/// The local contract of a constitutive law's kernels.
#[derive(Clone, Debug, PartialEq, Eq)]
pub struct ConstitutiveKernelContract {
    pub law: String,
    pub primal_outputs: Vec<String>,
    pub tangent_outputs: Vec<String>,
    pub parameter_derivatives: Vec<String>,
    pub stateful: bool,
}

/// The name of a residual block.
#[derive(Debug, PartialEq, Eq, PartialOrd, Ord)]
pub struct KernelBlockId(pub String);

impl KernelBlockId {
    pub fn copy(&self) -> (id: Self)
        ensures
            id.0@ == self.0@,
    {
        KernelBlockId(self.0.clone())
    }
}

impl Clone for KernelBlockId {
    fn clone(&self) -> (id: Self)
        ensures
            id.0@ == self.0@,
    {
        self.copy()
    }
}

/// The blocks, with what each depends on, as names.
pub open spec fn block_views(blocks: Seq<(KernelBlockId, Vec<String>)>) -> Seq<(Seq<char>, Seq<Seq<char>>)> {
    blocks.map_values(|b: (KernelBlockId, Vec<String>)| (b.0.0@, b.1@.map_values(|d: String| d@)))
}

/// The dependencies of the first `n` blocks, in order.
pub open spec fn all_dependencies(blocks: Seq<(Seq<char>, Seq<Seq<char>>)>, n: int) -> Seq<Seq<char>>
    decreases n,
{
    if n <= 0 {
        Seq::empty()
    } else {
        all_dependencies(blocks, n - 1) + blocks[n - 1].1
    }
}

/// The first occurrence of every item among the first `n`, in order.
pub open spec fn first_occurrences(s: Seq<Seq<char>>, n: int) -> Seq<Seq<char>>
    decreases n,
{
    if n <= 0 {
        Seq::empty()
    } else if first_occurrences(s, n - 1).contains(s[n - 1]) {
        first_occurrences(s, n - 1)
    } else {
        first_occurrences(s, n - 1).push(s[n - 1])
    }
}

/// The blocks among the first `n`, in order, that depend on `dependency`.
pub open spec fn users(blocks: Seq<(Seq<char>, Seq<Seq<char>>)>, dependency: Seq<char>, n: int) -> Seq<Seq<char>>
    decreases n,
{
    if n <= 0 {
        Seq::empty()
    } else if blocks[n - 1].1.contains(dependency) {
        users(blocks, dependency, n - 1).push(blocks[n - 1].0)
    } else {
        users(blocks, dependency, n - 1)
    }
}

/// Every dependency among the first `k` distinct ones that more than one block uses, with the
/// blocks that use it.
pub open spec fn shared_entries(blocks: Seq<(Seq<char>, Seq<Seq<char>>)>, distinct: Seq<Seq<char>>, k: int) -> Seq<
    (Seq<char>, Seq<Seq<char>>),
>
    decreases k,
{
    if k <= 0 {
        Seq::empty()
    } else {
        let d = distinct[k - 1];
        let u = users(blocks, d, blocks.len() as int);
        if u.len() > 1 {
            shared_entries(blocks, distinct, k - 1).push((d, u))
        } else {
            shared_entries(blocks, distinct, k - 1)
        }
    }
}

/// What the sharing plan of a set of blocks is: each dependency used by more than one block,
/// in order of first use, with its users in block order.
pub open spec fn sharing_plan(blocks: Seq<(Seq<char>, Seq<Seq<char>>)>) -> Seq<(Seq<char>, Seq<Seq<char>>)> {
    let all = all_dependencies(blocks, blocks.len() as int);
    let distinct = first_occurrences(all, all.len() as int);
    shared_entries(blocks, distinct, distinct.len() as int)
}

/// An evaluation name and its users, as names.
pub open spec fn entry_view(e: (String, Vec<KernelBlockId>)) -> (Seq<char>, Seq<Seq<char>>) {
    (e.0@, e.1@.map_values(|b: KernelBlockId| b.0@))
}

pub open spec fn entry_views(entries: Seq<(String, Vec<KernelBlockId>)>) -> Seq<(Seq<char>, Seq<Seq<char>>)> {
    entries.map_values(|e: (String, Vec<KernelBlockId>)| entry_view(e))
}

fn contains_name(list: &Vec<String>, name: &String) -> (r: bool)
    ensures
        r == list@.map_values(|d: String| d@).contains(name@),
{
    let ghost views = list@.map_values(|d: String| d@);
    let mut i: usize = 0;
    while i < list.len()
        invariant
            i <= list@.len(),
            views == list@.map_values(|d: String| d@),
            forall|j: int| 0 <= j < i ==> views[j] != name@,
        decreases list@.len() - i,
    {
        if list[i] == *name {
            assert(views[i as int] == name@);
            return true;
        }
        i = i + 1;
    }
    false
}

/// Every evaluation that more than one block depends on, in order of first use, with the
/// blocks that depend on it, in block order.
fn first_use_plan(block_dependencies: &Vec<(KernelBlockId, Vec<String>)>) -> (r: Vec<(String, Vec<KernelBlockId>)>)
    ensures
        entry_views(r@) == sharing_plan(block_views(block_dependencies@)),
{
    let ghost blocks = block_views(block_dependencies@);
    let mut distinct: Vec<String> = Vec::new();
    let mut b: usize = 0;
    while b < block_dependencies.len()
        invariant
            b <= block_dependencies@.len(),
            blocks == block_views(block_dependencies@),
            distinct@.map_values(|d: String| d@) == first_occurrences(
                all_dependencies(blocks, b as int),
                all_dependencies(blocks, b as int).len() as int,
            ),
        decreases block_dependencies@.len() - b,
    {
        let deps = &block_dependencies[b].1;
        let ghost before = all_dependencies(blocks, b as int);
        assert(blocks[b as int].1 == deps@.map_values(|d: String| d@));
        let mut k: usize = 0;
        while k < deps.len()
            invariant
                k <= deps@.len(),
                blocks == block_views(block_dependencies@),
                blocks[b as int].1 == deps@.map_values(|d: String| d@),
                before == all_dependencies(blocks, b as int),
                distinct@.map_values(|d: String| d@) == first_occurrences(
                    before + blocks[b as int].1.take(k as int),
                    (before + blocks[b as int].1.take(k as int)).len() as int,
                ),
            decreases deps@.len() - k,
        {
            let ghost prefix = before + blocks[b as int].1.take(k as int);
            let ghost next = before + blocks[b as int].1.take(k + 1);
            assert(next.take(prefix.len() as int) =~= prefix);
            assert(next[prefix.len() as int] == deps@[k as int]@);
            proof {
                lemma_first_occurrences_prefix(next, prefix);
            }
            if !contains_name(&distinct, &deps[k]) {
                distinct.push(deps[k].clone());
                assert(distinct@.map_values(|d: String| d@) =~= first_occurrences(prefix, prefix.len() as int).push(
                    deps@[k as int]@,
                ));
            }
            k = k + 1;
        }
        assert(blocks[b as int].1.take(deps@.len() as int) =~= blocks[b as int].1);
        b = b + 1;
    }
    let ghost all = all_dependencies(blocks, blocks.len() as int);
    let ghost ds = first_occurrences(all, all.len() as int);
    let mut result: Vec<(String, Vec<KernelBlockId>)> = Vec::new();
    let mut i: usize = 0;
    while i < distinct.len()
        invariant
            i <= distinct@.len(),
            blocks == block_views(block_dependencies@),
            distinct@.map_values(|d: String| d@) == ds,
            entry_views(result@) == shared_entries(blocks, ds, i as int),
        decreases distinct@.len() - i,
    {
        let name = &distinct[i];
        assert(ds[i as int] == name@);
        let mut using: Vec<KernelBlockId> = Vec::new();
        let mut b: usize = 0;
        while b < block_dependencies.len()
            invariant
                b <= block_dependencies@.len(),
                blocks == block_views(block_dependencies@),
                using@.map_values(|x: KernelBlockId| x.0@) == users(blocks, name@, b as int),
            decreases block_dependencies@.len() - b,
        {
            let entry = &block_dependencies[b];
            assert(blocks[b as int] == (entry.0.0@, entry.1@.map_values(|d: String| d@)));
            if contains_name(&entry.1, name) {
                using.push(entry.0.copy());
            }
            b = b + 1;
            assert(using@.map_values(|x: KernelBlockId| x.0@) =~= users(blocks, name@, b as int));
        }
        if using.len() > 1 {
            result.push((name.clone(), using));
        }
        i = i + 1;
        assert(entry_views(result@) =~= shared_entries(blocks, ds, i as int));
    }
    result
}

proof fn lemma_first_occurrences_prefix(next: Seq<Seq<char>>, prefix: Seq<Seq<char>>)
    requires
        prefix.len() < next.len(),
        next.take(prefix.len() as int) == prefix,
        next.len() == prefix.len() + 1,
    ensures
        first_occurrences(next, next.len() as int) == if first_occurrences(prefix, prefix.len() as int).contains(
            next[prefix.len() as int],
        ) {
            first_occurrences(prefix, prefix.len() as int)
        } else {
            first_occurrences(prefix, prefix.len() as int).push(next[prefix.len() as int])
        },
{
    assert(prefix.take(prefix.len() as int) =~= prefix);
    lemma_first_occurrences_agree(next, prefix, prefix.len() as int);
}

proof fn lemma_first_occurrences_agree(a: Seq<Seq<char>>, b: Seq<Seq<char>>, n: int)
    requires
        0 <= n <= a.len(),
        n <= b.len(),
        a.take(n) == b.take(n),
    ensures
        first_occurrences(a, n) == first_occurrences(b, n),
    decreases n,
{
    if n > 0 {
        assert(a.take(n - 1) =~= a.take(n).take(n - 1));
        assert(b.take(n - 1) =~= b.take(n).take(n - 1));
        lemma_first_occurrences_agree(a, b, n - 1);
        assert(a[n - 1] == a.take(n)[n - 1]);
        assert(b[n - 1] == b.take(n)[n - 1]);
    }
}

// ---------------------------------------------------------------------------------------------
// Name order
// ---------------------------------------------------------------------------------------------
/// Whether byte string `a` comes before `b` in lexicographic order, comparing from position `i`
/// on (the bytes before `i` being equal).
pub open spec fn bytes_before(a: Seq<u8>, b: Seq<u8>, i: int) -> bool
    decreases a.len() - i,
{
    if i >= a.len() {
        i < b.len()
    } else if i >= b.len() {
        false
    } else if a[i] < b[i] {
        true
    } else if a[i] > b[i] {
        false
    } else {
        bytes_before(a, b, i + 1)
    }
}

/// The order of names as strings: lexicographic in their UTF-8 bytes.
pub open spec fn name_before(a: Seq<char>, b: Seq<char>) -> bool {
    bytes_before(vstd::utf8::encode_utf8(a), vstd::utf8::encode_utf8(b), 0)
}

proof fn lemma_bytes_irreflexive(a: Seq<u8>, i: int)
    requires
        0 <= i,
    ensures
        !bytes_before(a, a, i),
    decreases a.len() - i,
{
    if i < a.len() {
        lemma_bytes_irreflexive(a, i + 1);
    }
}

proof fn lemma_bytes_total(a: Seq<u8>, b: Seq<u8>, i: int)
    requires
        0 <= i <= a.len(),
        i <= b.len(),
        !(a.len() == b.len() && forall|j: int| i <= j < a.len() ==> a[j] == b[j]),
    ensures
        bytes_before(a, b, i) || bytes_before(b, a, i),
    decreases a.len() - i,
{
    if i < a.len() && i < b.len() && a[i] == b[i] {
        if a.len() == b.len() && forall|j: int| i + 1 <= j < a.len() ==> a[j] == b[j] {
            assert forall|j: int| i <= j < a.len() implies a[j] == b[j] by {
                if j > i {
                    assert(i + 1 <= j);
                }
            }
        }
        lemma_bytes_total(a, b, i + 1);
    }
}

proof fn lemma_bytes_transitive(a: Seq<u8>, b: Seq<u8>, c: Seq<u8>, i: int)
    requires
        0 <= i,
        bytes_before(a, b, i),
        bytes_before(b, c, i),
    ensures
        bytes_before(a, c, i),
    decreases a.len() - i,
{
    if i < a.len() && i < b.len() && i < c.len() && a[i] == b[i] && b[i] == c[i] {
        lemma_bytes_transitive(a, b, c, i + 1);
    }
}

proof fn lemma_name_order(a: Seq<char>, b: Seq<char>)
    ensures
        !name_before(a, a),
        a != b ==> name_before(a, b) || name_before(b, a),
        name_before(a, b) ==> !name_before(b, a),
{
    let x = vstd::utf8::encode_utf8(a);
    let y = vstd::utf8::encode_utf8(b);
    lemma_bytes_irreflexive(x, 0);
    if a != b {
        vstd::utf8::encode_utf8_decode_utf8(a);
        vstd::utf8::encode_utf8_decode_utf8(b);
        if x.len() == y.len() && forall|j: int| 0 <= j < x.len() ==> x[j] == y[j] {
            assert(x =~= y);
        }
        lemma_bytes_total(x, y, 0);
    }
    if name_before(a, b) && name_before(b, a) {
        lemma_bytes_transitive(x, y, x, 0);
    }
}

proof fn lemma_name_transitive(a: Seq<char>, b: Seq<char>, c: Seq<char>)
    requires
        name_before(a, b),
        name_before(b, c),
    ensures
        name_before(a, c),
{
    lemma_bytes_transitive(vstd::utf8::encode_utf8(a), vstd::utf8::encode_utf8(b), vstd::utf8::encode_utf8(c), 0);
}

/// Whether `a` comes before `b` as a string.
fn name_before_exec(a: &String, b: &String) -> (r: bool)
    ensures
        r == name_before(a@, b@),
{
    let x = a.as_str().as_bytes();
    let y = b.as_str().as_bytes();
    let mut i: usize = 0;
    while i < x.len() && i < y.len() && x[i] == y[i]
        invariant
            i <= x@.len(),
            i <= y@.len(),
            bytes_before(x@, y@, 0) == bytes_before(x@, y@, i as int),
        decreases x@.len() - i,
    {
        i = i + 1;
    }
    if i >= x.len() {
        i < y.len()
    } else if i >= y.len() {
        false
    } else {
        x[i] < y[i]
    }
}

// ---------------------------------------------------------------------------------------------
// Distinct names in the plan
// ---------------------------------------------------------------------------------------------
proof fn lemma_first_occurrences_distinct(s: Seq<Seq<char>>, n: int)
    requires
        0 <= n <= s.len(),
    ensures
        forall|i: int, j: int|
            0 <= i < j < first_occurrences(s, n).len() ==> first_occurrences(s, n)[i] != first_occurrences(s, n)[j],
    decreases n,
{
    if n > 0 {
        lemma_first_occurrences_distinct(s, n - 1);
        let prev = first_occurrences(s, n - 1);
        if !prev.contains(s[n - 1]) {
            assert forall|i: int| 0 <= i < prev.len() implies prev[i] != s[n - 1] by {
                if prev[i] == s[n - 1] {
                    assert(prev.contains(s[n - 1]));
                }
            }
        }
    }
}

proof fn lemma_shared_entries_names(blocks: Seq<(Seq<char>, Seq<Seq<char>>)>, distinct: Seq<Seq<char>>, k: int)
    requires
        0 <= k <= distinct.len(),
        forall|i: int, j: int| 0 <= i < j < distinct.len() ==> distinct[i] != distinct[j],
    ensures
        forall|q: int|
            0 <= q < shared_entries(blocks, distinct, k).len() ==> exists|m: int|
                0 <= m < k && #[trigger] shared_entries(blocks, distinct, k)[q].0 == distinct[m],
        forall|q: int, r: int|
            0 <= q < r < shared_entries(blocks, distinct, k).len() ==> shared_entries(blocks, distinct, k)[q].0
                != shared_entries(blocks, distinct, k)[r].0,
    decreases k,
{
    if k > 0 {
        lemma_shared_entries_names(blocks, distinct, k - 1);
        let prev = shared_entries(blocks, distinct, k - 1);
        let next = shared_entries(blocks, distinct, k);
        assert forall|q: int| 0 <= q < next.len() implies exists|m: int| 0 <= m < k && #[trigger] next[q].0 == distinct[m] by {
            if q < prev.len() {
                assert(next[q] == prev[q]);
                let m = choose|m: int| 0 <= m < k - 1 && #[trigger] prev[q].0 == distinct[m];
                assert(next[q].0 == distinct[m]);
            } else {
                assert(next[q].0 == distinct[k - 1]);
            }
        }
        assert forall|q: int, r: int| 0 <= q < r < next.len() implies next[q].0 != next[r].0 by {
            if r < prev.len() {
                assert(next[q] == prev[q] && next[r] == prev[r]);
            } else {
                assert(next[q] == prev[q]);
                let m = choose|m: int| 0 <= m < k - 1 && #[trigger] prev[q].0 == distinct[m];
                assert(next[r].0 == distinct[k - 1]);
            }
        }
    }
}

proof fn lemma_plan_names_distinct(blocks: Seq<(Seq<char>, Seq<Seq<char>>)>)
    ensures
        forall|q: int, r: int|
            0 <= q < r < sharing_plan(blocks).len() ==> sharing_plan(blocks)[q].0 != sharing_plan(blocks)[r].0,
{
    let all = all_dependencies(blocks, blocks.len() as int);
    let distinct = first_occurrences(all, all.len() as int);
    lemma_first_occurrences_distinct(all, all.len() as int);
    lemma_shared_entries_names(blocks, distinct, distinct.len() as int);
}

// ---------------------------------------------------------------------------------------------
// The sharing plan in name order
// ---------------------------------------------------------------------------------------------
pub open spec fn plan_names_distinct(pv: Seq<(Seq<char>, Seq<Seq<char>>)>) -> bool {
    forall|q: int, r: int| 0 <= q < r < pv.len() ==> pv[q].0 != pv[r].0
}

/// The entries placed so far are exactly the first `k` of the plan.
pub open spec fn placed(sorted: Seq<(String, Vec<KernelBlockId>)>, pv: Seq<(Seq<char>, Seq<Seq<char>>)>, k: int) -> bool {
    &&& forall|q: int| 0 <= q < sorted.len() ==> exists|m: int| 0 <= m < k && #[trigger] entry_view(sorted[q]) == pv[m]
    &&& forall|m: int| 0 <= m < k ==> exists|q: int| 0 <= q < sorted.len() && entry_view(sorted[q]) == #[trigger] pv[m]
}

pub open spec fn sorted_by_name(sorted: Seq<(String, Vec<KernelBlockId>)>) -> bool {
    forall|i: int, j: int| 0 <= i < j < sorted.len() ==> name_before(sorted[i].0@, sorted[j].0@)
}

proof fn lemma_placed_name_differs(before: Seq<(String, Vec<KernelBlockId>)>, pv: Seq<(Seq<char>, Seq<Seq<char>>)>, k: int, p: int)
    requires
        0 <= k < pv.len(),
        0 <= p < before.len(),
        plan_names_distinct(pv),
        placed(before, pv, k),
    ensures
        before[p].0@ != pv[k].0,
{
    let m = choose|m: int| 0 <= m < k && #[trigger] entry_view(before[p]) == pv[m];
    assert(pv[m].0 != pv[k].0);
}

proof fn lemma_insert_placed(
    before: Seq<(String, Vec<KernelBlockId>)>,
    entry: (String, Vec<KernelBlockId>),
    p: int,
    pv: Seq<(Seq<char>, Seq<Seq<char>>)>,
    k: int,
)
    requires
        0 <= p <= before.len(),
        0 <= k < pv.len(),
        entry_view(entry) == pv[k],
        plan_names_distinct(pv),
        placed(before, pv, k),
        sorted_by_name(before),
        forall|q: int| 0 <= q < p ==> name_before(#[trigger] before[q].0@, entry.0@),
        p < before.len() ==> name_before(entry.0@, before[p].0@),
    ensures
        placed(before.insert(p, entry), pv, k + 1),
        sorted_by_name(before.insert(p, entry)),
{
    let after = before.insert(p, entry);
    assert forall|q: int| 0 <= q < after.len() implies exists|m: int| 0 <= m < k + 1 && #[trigger] entry_view(after[q]) == pv[m] by {
        if q < p {
            assert(after[q] == before[q]);
            let m = choose|m: int| 0 <= m < k && #[trigger] entry_view(before[q]) == pv[m];
        } else if q == p {
            assert(after[q] == entry);
        } else {
            assert(after[q] == before[q - 1]);
            let m = choose|m: int| 0 <= m < k && #[trigger] entry_view(before[q - 1]) == pv[m];
        }
    }
    assert forall|m: int| 0 <= m < k + 1 implies exists|q: int| 0 <= q < after.len() && entry_view(after[q]) == #[trigger] pv[m] by {
        if m < k {
            let q = choose|q: int| 0 <= q < before.len() && entry_view(before[q]) == #[trigger] pv[m];
            if q < p {
                assert(after[q] == before[q]);
            } else {
                assert(after[q + 1] == before[q]);
            }
        } else {
            assert(after[p] == entry);
        }
    }
    assert forall|i: int, j: int| 0 <= i < j < after.len() implies name_before(after[i].0@, after[j].0@) by {
        if j < p {
            assert(after[i] == before[i] && after[j] == before[j]);
        } else if j == p {
            assert(after[i] == before[i] && after[j] == entry);
        } else if i < p {
            assert(after[i] == before[i] && after[j] == before[j - 1]);
            lemma_name_transitive(before[i].0@, entry.0@, before[p].0@);
            if j - 1 > p {
                lemma_name_transitive(before[i].0@, before[p].0@, before[j - 1].0@);
            }
        } else if i == p {
            assert(after[i] == entry && after[j] == before[j - 1]);
            if j - 1 > p {
                lemma_name_transitive(entry.0@, before[p].0@, before[j - 1].0@);
            }
        } else {
            assert(after[i] == before[i - 1] && after[j] == before[j - 1]);
        }
    }
}

proof fn lemma_placed_all(sorted: Seq<(String, Vec<KernelBlockId>)>, pv: Seq<(Seq<char>, Seq<Seq<char>>)>)
    requires
        placed(sorted, pv, pv.len() as int),
    ensures
        forall|x: (Seq<char>, Seq<Seq<char>>)| #[trigger] entry_views(sorted).contains(x) <==> pv.contains(x),
{
    let sv = entry_views(sorted);
    assert forall|x: (Seq<char>, Seq<Seq<char>>)| #[trigger] sv.contains(x) <==> pv.contains(x) by {
        if sv.contains(x) {
            let q = choose|q: int| 0 <= q < sv.len() && sv[q] == x;
            assert(sv[q] == entry_view(sorted[q]));
            let m = choose|m: int| 0 <= m < pv.len() && #[trigger] entry_view(sorted[q]) == pv[m];
        }
        if pv.contains(x) {
            let m = choose|m: int| 0 <= m < pv.len() && pv[m] == x;
            let q = choose|q: int| 0 <= q < sorted.len() && entry_view(sorted[q]) == #[trigger] pv[m];
            assert(sv[q] == entry_view(sorted[q]));
        }
    }
}

/// CSE/share planning across coupled residual blocks: every evaluation that more than one
/// block depends on, in name order, with the blocks that depend on it, in block order. Each
/// block is listed once with its dependencies.
pub fn shared_evaluations(block_dependencies: &Vec<(KernelBlockId, Vec<String>)>) -> (r: Vec<(String, Vec<KernelBlockId>)>)
    ensures
        forall|x: (Seq<char>, Seq<Seq<char>>)| #[trigger] entry_views(r@).contains(x) <==> sharing_plan(
            block_views(block_dependencies@),
        ).contains(x),
        forall|i: int, j: int| 0 <= i < j < r@.len() ==> name_before(r@[i].0@, r@[j].0@),
{
    let ghost pv = sharing_plan(block_views(block_dependencies@));
    let mut plan = first_use_plan(block_dependencies);
    proof {
        lemma_plan_names_distinct(block_views(block_dependencies@));
    }
    let mut sorted: Vec<(String, Vec<KernelBlockId>)> = Vec::new();
    let ghost mut k: int = 0;
    while plan.len() > 0
        invariant
            0 <= k <= pv.len(),
            entry_views(plan@) == pv.skip(k),
            plan_names_distinct(pv),
            placed(sorted@, pv, k),
            sorted_by_name(sorted@),
        decreases plan@.len(),
    {
        proof {
            assert(pv.skip(k).len() == pv.len() - k);
            assert(entry_views(plan@)[0] == pv.skip(k)[0]);
        }
        let ghost old_plan = plan@;
        let entry = plan.remove(0);
        let ghost before = sorted@;
        let mut p: usize = 0;
        while p < sorted.len() && !name_before_exec(&entry.0, &sorted[p].0)
            invariant
                p <= sorted@.len(),
                sorted@ == before,
                0 <= k < pv.len(),
                entry_view(entry) == pv[k],
                plan_names_distinct(pv),
                placed(before, pv, k),
                forall|q: int| 0 <= q < p ==> name_before(#[trigger] before[q].0@, entry.0@),
            decreases sorted@.len() - p,
        {
            proof {
                lemma_placed_name_differs(before, pv, k, p as int);
                lemma_name_order(before[p as int].0@, entry.0@);
            }
            p = p + 1;
        }
        sorted.insert(p, entry);
        proof {
            lemma_insert_placed(before, entry, p as int, pv, k);
            assert forall|i: int| 0 <= i < plan@.len() implies #[trigger] entry_views(plan@)[i] == pv.skip(k + 1)[i] by {
                assert(plan@[i] == old_plan[i + 1]);
                assert(entry_views(old_plan)[i + 1] == pv.skip(k)[i + 1]);
            }
            assert(entry_views(plan@) =~= pv.skip(k + 1));
            k = k + 1;
        }
    }
    proof {
        assert(pv.skip(k).len() == 0);
        lemma_placed_all(sorted@, pv);
    }
    sorted
}

} // verus!
