//! The address-space interval tracker: its mathematical model, its
//! invariants, and the free-space search that places new mappings.
//!
//! The model of a tracker is `AsView`: the construction-time layout
//! parameters together with a map from start address to the length and
//! data-source id of the mapping that begins there. Free regions are never
//! stored; every placement question is answered by a single pass over the
//! mappings in address order.

use vstd::prelude::*;

use crate::error::AsError;
use crate::flags::Flags;
use crate::storage::empty_contents;
use crate::storage::sg_contents;
use crate::storage::store_entries;
use crate::storage::store_new;
use crate::storage::store_remove;
use crate::storage::store_try_insert;
use crate::storage::MappingStore;
use vstd::arithmetic::div_mod::lemma_fundamental_div_mod;
use vstd::arithmetic::div_mod::lemma_mod_division_less_than_divisor;
use vstd::arithmetic::div_mod::lemma_mod_multiples_basic;
use vstd::arithmetic::div_mod::lemma_small_mod;
use vstd::arithmetic::div_mod::lemma_sub_mod_noop;

verus! {

/// The page size used when a caller has no reason to choose another.
pub const DEFAULT_PAGE_SIZE: usize = 4096;

/// The most mappings a tracker can hold; the bound of the backing storage.
pub const MAX_MAPPINGS: usize = 1024;

/// The mathematical value of an address space: its layout parameters and,
/// keyed by start address, the length and data-source id of each mapping.
#[verifier::ext_equal]
pub ghost struct AsView {
    pub name: Seq<char>,
    pub n_pages: usize,
    pub page_size: usize,
    pub min_gap: usize,
    pub mappings: Map<usize, (usize, usize)>,
}

/// Total capacity in bytes: mappings live in `[0, capacity_of(v))`.
pub open spec fn capacity_of(v: AsView) -> int {
    v.n_pages * v.page_size
}

/// The construction-time parameters a tracker is built with: pages have a
/// positive size, some separation between mappings is mandatory, and the
/// whole range fits the machine word.
pub open spec fn params_wf(v: AsView) -> bool {
    &&& 1 <= v.page_size
    &&& 1 <= v.min_gap
    &&& v.n_pages * v.page_size <= usize::MAX
}

/// One mapping is well-placed: it starts on a page boundary above the
/// reserved zero page, is non-empty, and leaves the mandatory gap before
/// the end of the range.
pub open spec fn entry_wf(v: AsView, a: usize) -> bool {
    &&& v.page_size <= a
    &&& (a as int) % (v.page_size as int) == 0
    &&& 1 <= v.mappings[a].0
    &&& a + v.mappings[a].0 + v.min_gap <= capacity_of(v)
}

/// Two mappings keep their distance: the lower one ends at least
/// `min_gap` bytes before the higher one begins.
pub open spec fn gap_wf(v: AsView, a1: usize, a2: usize) -> bool {
    a1 < a2 ==> a1 + v.mappings[a1].0 + v.min_gap <= a2
}

/// Every mapping is well-placed and every pair keeps its distance.
pub open spec fn mappings_wf(v: AsView) -> bool {
    &&& forall|a: usize| #[trigger] v.mappings.dom().contains(a) ==> entry_wf(v, a)
    &&& forall|a1: usize, a2: usize|
        #![trigger v.mappings.dom().contains(a1), v.mappings.dom().contains(a2)]
        v.mappings.dom().contains(a1) && v.mappings.dom().contains(a2) ==> gap_wf(v, a1, a2)
}

/// The whole-structure invariant: sane parameters, bounded storage, and
/// well-formed, pairwise-separated mappings.
pub open spec fn inv(v: AsView) -> bool {
    &&& params_wf(v)
    &&& v.mappings.dom().finite()
    &&& v.mappings.dom().len() <= MAX_MAPPINGS
    &&& mappings_wf(v)
}

/// A mapping of `len` bytes could sit at `a` without constraining later
/// growth: page-aligned, clear of the zero page, the mandatory gap kept
/// towards both neighbours and the end of the range. This is the bound an
/// unconstrained placement request must satisfy; the upper edges are
/// inclusive.
pub open spec fn can_place(v: AsView, a: usize, len: usize) -> bool {
    &&& (a as int) % (v.page_size as int) == 0
    &&& v.min_gap <= a
    &&& a + len + v.min_gap <= capacity_of(v)
    &&& forall|b: usize| #[trigger] v.mappings.dom().contains(b)
        ==> b + v.mappings[b].0 + v.min_gap <= a || a + len + v.min_gap <= b
}

/// `a` is the first-fit answer for a request of `len` bytes: it satisfies
/// `can_place`, and no lower address does.
pub open spec fn is_first_fit(v: AsView, len: usize, a: usize) -> bool {
    &&& can_place(v, a, len)
    &&& forall|a2: usize| a2 < a ==> !#[trigger] can_place(v, a2, len)
}

/// A caller-chosen address is acceptable: as `can_place`, but with a strict
/// bound at the upper edge (towards the next mapping and the end of the
/// range). The asymmetry between the two predicates is deliberate and
/// callers must not assume either.
pub open spec fn space_at_ok(v: AsView, a: usize, len: usize) -> bool {
    &&& (a as int) % (v.page_size as int) == 0
    &&& v.min_gap <= a
    &&& a + len + v.min_gap < capacity_of(v)
    &&& forall|b: usize| #[trigger] v.mappings.dom().contains(b)
        ==> b + v.mappings[b].0 + v.min_gap <= a || a + len + v.min_gap < b
}

/// The mapping starting at `b` covers address `a`.
pub open spec fn covers(v: AsView, b: usize, a: usize) -> bool {
    &&& v.mappings.dom().contains(b)
    &&& b <= a < b + v.mappings[b].0
}

/// The listing `es` is the mappings of `m` in ascending address order:
/// every listed triple `(addr, length, source)` is a mapping, the
/// addresses strictly increase, and every mapping is listed.
pub open spec fn entries_match(m: Map<usize, (usize, usize)>, es: Seq<(usize, usize, usize)>) -> bool {
    &&& forall|i: int| 0 <= i < es.len() ==> #[trigger] m.contains_pair(es[i].0, (es[i].1, es[i].2))
    &&& forall|i: int, j: int| 0 <= i < j < es.len() ==> es[i].0 < es[j].0
    &&& forall|b: usize| #[trigger] m.dom().contains(b)
        ==> exists|i: int| 0 <= i < es.len() && (#[trigger] es[i]).0 == b
    &&& es.len() == m.dom().len()
}

/// The least multiple of `m` that is at least `x`.
pub open spec fn round_up(x: int, m: int) -> int
    recommends
        1 <= m,
        0 <= x,
{
    if x % m == 0 {
        x
    } else {
        x + (m - x % m)
    }
}

/// `round_up` lands on a multiple within one period above `x`.
proof fn lemma_round_up_props(x: int, m: int)
    requires
        1 <= m,
        0 <= x,
    ensures
        round_up(x, m) % m == 0,
        x <= round_up(x, m) < x + m,
{
    lemma_mod_division_less_than_divisor(x, m);
    if x % m != 0 {
        lemma_fundamental_div_mod(x, m);
        assert(round_up(x, m) == m * (x / m + 1)) by {
            assert(x == m * (x / m) + x % m);
            assert(m * (x / m + 1) == m * (x / m) + m) by (nonlinear_arith);
        }
        lemma_mod_multiples_basic(x / m + 1, m);
        assert((m * (x / m + 1)) % m == 0) by {
            assert(m * (x / m + 1) == (x / m + 1) * m) by (nonlinear_arith);
        }
    }
}

/// Minimality of `round_up`: no multiple of `m` lies in `[x, round_up(x, m))`.
proof fn lemma_round_up_is_least(x: int, m: int, y: int)
    requires
        1 <= m,
        0 <= x,
        x <= y,
        y % m == 0,
    ensures
        round_up(x, m) <= y,
{
    lemma_round_up_props(x, m);
    let c = round_up(x, m);
    if y < c {
        let d = c - y;
        assert(0 < d < m);
        lemma_sub_mod_noop(c, y, m);
        assert(d % m == 0) by {
            assert(((c % m) - (y % m)) % m == (c - y) % m);
            assert((0int - 0int) % m == 0) by {
                lemma_small_mod(0nat, m as nat);
            }
        }
        lemma_small_mod(d as nat, m as nat);
        assert(false);
    }
}

/// Pointwise consequences of a well-formed map and a matching listing:
/// each listed triple is a mapping with the listed length and source, is
/// well-placed, and consecutive listed mappings keep the mandatory gap.
proof fn lemma_entries_facts(v: AsView, es: Seq<(usize, usize, usize)>)
    requires
        params_wf(v),
        mappings_wf(v),
        entries_match(v.mappings, es),
    ensures
        forall|j: int| 0 <= j < es.len() ==> v.mappings.dom().contains((#[trigger] es[j]).0),
        forall|j: int| 0 <= j < es.len() ==> v.mappings[(#[trigger] es[j]).0] == (es[j].1, es[j].2),
        forall|j: int| 0 <= j < es.len() ==> entry_wf(v, (#[trigger] es[j]).0),
        forall|j1: int, j2: int|
            #![trigger es[j1], es[j2]]
            0 <= j1 < j2 < es.len() ==> es[j1].0 + es[j1].1 + v.min_gap <= es[j2].0,
{
    assert forall|j: int| 0 <= j < es.len() implies v.mappings.dom().contains((#[trigger] es[j]).0)
        && v.mappings[es[j].0] == (es[j].1, es[j].2) && entry_wf(v, es[j].0) by {
        assert(v.mappings.contains_pair(es[j].0, (es[j].1, es[j].2)));
    }
    assert forall|j1: int, j2: int|
        #![trigger es[j1], es[j2]]
        0 <= j1 < j2 < es.len() implies es[j1].0 + es[j1].1 + v.min_gap <= es[j2].0 by {
        assert(v.mappings.contains_pair(es[j1].0, (es[j1].1, es[j1].2)));
        assert(v.mappings.contains_pair(es[j2].0, (es[j2].1, es[j2].2)));
        assert(gap_wf(v, es[j1].0, es[j2].0));
    }
}

/// The least multiple of `m` at or above `x`, or `None` where that
/// multiple does not fit the machine word.
fn round_up_exec(x: usize, m: usize) -> (r: Option<usize>)
    requires
        1 <= m,
    ensures
        match r {
            Some(c) => c as int == round_up(x as int, m as int),
            None => round_up(x as int, m as int) > usize::MAX,
        },
{
    let rem: usize = x % m;
    if rem == 0 {
        Some(x)
    } else {
        x.checked_add(m - rem)
    }
}

/// First-fit search over the free regions between the listed mappings:
/// returns the lowest address where `length` bytes can be placed, or
/// `None` when no address at all qualifies.
#[verifier::loop_isolation(false)]
fn find_first_fit_in(
    entries: &Vec<(usize, usize, usize)>,
    cap: usize,
    page_size: usize,
    min_gap: usize,
    length: usize,
    Ghost(v): Ghost<AsView>,
) -> (r: Option<usize>)
    requires
        params_wf(v),
        mappings_wf(v),
        v.page_size == page_size,
        v.min_gap == min_gap,
        capacity_of(v) == cap,
        entries_match(v.mappings, entries@),
        1 <= length,
    ensures
        match r {
            Some(a) => is_first_fit(v, length, a),
            None => forall|a: usize| !can_place(v, a, length),
        },
{
    proof {
        lemma_entries_facts(v, entries@);
    }
    let n: usize = entries.len();
    // The bytes a placement claims above its start address. If this alone
    // exceeds the machine word no request can succeed.
    let need: usize = match length.checked_add(min_gap) {
        Some(s) => s,
        None => {
            return None;
        },
    };
    let mut i: usize = 0;
    let mut prev_end: usize = 0;
    loop
        invariant
            i <= n,
            i == 0 ==> prev_end == 0,
            i > 0 ==> prev_end == entries@[i as int - 1].0 + entries@[i as int - 1].1,
            forall|j: int| 0 <= j < i ==> (#[trigger] entries@[j]).0 + entries@[j].1 <= prev_end,
            forall|a: usize| #[trigger] can_place(v, a, length) ==> prev_end + min_gap <= a,
        decreases n - i,
    {
        let region_end: usize = if i < n {
            entries[i].0
        } else {
            cap
        };
        // The lowest aligned candidate that keeps the gap to the previous
        // mapping. If it overflows, every later candidate does too.
        let base: usize = match prev_end.checked_add(min_gap) {
            Some(b) => b,
            None => {
                return None;
            },
        };
        let cand: usize = match round_up_exec(base, page_size) {
            Some(c) => c,
            None => {
                proof {
                    assert forall|a: usize| !can_place(v, a, length) by {
                        if can_place(v, a, length) {
                            lemma_round_up_is_least(base as int, page_size as int, a as int);
                        }
                    }
                }
                return None;
            },
        };
        proof {
            lemma_round_up_props(base as int, page_size as int);
        }
        if cand <= region_end && region_end - cand >= need {
            proof {
                assert(can_place(v, cand, length)) by {
                    assert forall|b: usize| #[trigger] v.mappings.dom().contains(b)
                        implies b + v.mappings[b].0 + v.min_gap <= cand
                            || cand + length + v.min_gap <= b by {
                        let j = choose|j: int|
                            0 <= j < entries@.len() && (#[trigger] entries@[j]).0 == b;
                        if j < i {
                            assert(entries@[j].0 + entries@[j].1 <= prev_end);
                        } else {
                            assert(i < n);
                            assert(entries@[i as int].0 <= entries@[j].0);
                        }
                    }
                }
                assert forall|a2: usize| a2 < cand implies !can_place(v, a2, length) by {
                    if can_place(v, a2, length) {
                        lemma_round_up_is_least(base as int, page_size as int, a2 as int);
                    }
                }
            }
            return Some(cand);
        }
        if i == n {
            proof {
                assert forall|a: usize| !can_place(v, a, length) by {
                    if can_place(v, a, length) {
                        lemma_round_up_is_least(base as int, page_size as int, a as int);
                    }
                }
            }
            return None;
        }
        proof {
            assert forall|a: usize| #[trigger] can_place(v, a, length)
                implies entries@[i as int].0 + entries@[i as int].1 + min_gap <= a by {
                lemma_round_up_is_least(base as int, page_size as int, a as int);
                assert(v.mappings.dom().contains(entries@[i as int].0));
            }
        }
        prev_end = entries[i].0 + entries[i].1;
        i = i + 1;
    }
}

/// Decide whether a mapping of `length` bytes may sit at the caller-chosen
/// address `addr`: find the free region that ends beyond `addr` and check
/// alignment and both gap bounds against it.
#[verifier::loop_isolation(false)]
fn space_at_in(
    entries: &Vec<(usize, usize, usize)>,
    cap: usize,
    page_size: usize,
    min_gap: usize,
    addr: usize,
    length: usize,
    Ghost(v): Ghost<AsView>,
) -> (r: bool)
    requires
        params_wf(v),
        mappings_wf(v),
        v.page_size == page_size,
        v.min_gap == min_gap,
        capacity_of(v) == cap,
        entries_match(v.mappings, entries@),
        1 <= length,
    ensures
        r == space_at_ok(v, addr, length),
{
    proof {
        lemma_entries_facts(v, entries@);
    }
    let n: usize = entries.len();
    let mut i: usize = 0;
    let mut prev_end: usize = 0;
    loop
        invariant
            i <= n,
            i == 0 ==> prev_end == 0,
            i > 0 ==> prev_end == entries@[i as int - 1].0 + entries@[i as int - 1].1,
            forall|j: int| 0 <= j < i ==> (#[trigger] entries@[j]).0 + entries@[j].1 <= prev_end,
            forall|j: int| 0 <= j < i ==> (#[trigger] entries@[j]).0 <= addr,
        decreases n - i,
    {
        let region_end: usize = if i < n {
            entries[i].0
        } else {
            cap
        };
        if region_end > addr {
            let aligned: bool = addr % page_size == 0;
            let left_ok: bool = min_gap <= addr && prev_end <= addr - min_gap;
            let right_ok: bool = match length.checked_add(min_gap) {
                Some(need) => region_end - addr > need,
                None => false,
            };
            let ok: bool = aligned && left_ok && right_ok;
            proof {
                if ok {
                    assert forall|b: usize| #[trigger] v.mappings.dom().contains(b)
                        implies b + v.mappings[b].0 + v.min_gap <= addr
                            || addr + length + v.min_gap < b by {
                        let j = choose|j: int|
                            0 <= j < entries@.len() && (#[trigger] entries@[j]).0 == b;
                        if j < i {
                            assert(entries@[j].0 + entries@[j].1 <= prev_end);
                        } else {
                            assert(i < n);
                            assert(entries@[i as int].0 <= entries@[j].0);
                        }
                    }
                    if i < n {
                        assert(entry_wf(v, entries@[i as int].0));
                    }
                    assert(space_at_ok(v, addr, length));
                } else if space_at_ok(v, addr, length) {
                    // Each failed check contradicts the predicate.
                    if i > 0 {
                        assert(v.mappings.dom().contains(entries@[i as int - 1].0));
                    }
                    if i < n {
                        assert(v.mappings.dom().contains(entries@[i as int].0));
                    }
                    assert(false);
                }
            }
            return ok;
        }
        if i == n {
            return false;
        }
        prev_end = entries[i].0 + entries[i].1;
        i = i + 1;
    }
}

/// Find the mapping whose interval covers `addr`; hand back its
/// data-source id and the offset of `addr` within the mapping.
#[verifier::loop_isolation(false)]
fn resolve_in(
    entries: &Vec<(usize, usize, usize)>,
    addr: usize,
    Ghost(v): Ghost<AsView>,
) -> (r: Option<(usize, usize)>)
    requires
        params_wf(v),
        mappings_wf(v),
        entries_match(v.mappings, entries@),
    ensures
        match r {
            Some(p) => exists|b: usize|
                #[trigger] covers(v, b, addr) && v.mappings[b].1 == p.0 && p.1 == addr - b,
            None => forall|b: usize| !covers(v, b, addr),
        },
{
    proof {
        lemma_entries_facts(v, entries@);
    }
    let n: usize = entries.len();
    let mut i: usize = 0;
    while i < n
        invariant
            i <= n,
            forall|j: int| 0 <= j < i ==> !covers(v, (#[trigger] entries@[j]).0, addr),
        decreases n - i,
    {
        let e: (usize, usize, usize) = entries[i];
        if e.0 <= addr && addr - e.0 < e.1 {
            proof {
                assert(covers(v, entries@[i as int].0, addr));
            }
            return Some((e.2, addr - e.0));
        }
        i = i + 1;
    }
    proof {
        assert forall|b: usize| !covers(v, b, addr) by {
            if covers(v, b, addr) {
                let j = choose|j: int| 0 <= j < entries@.len() && (#[trigger] entries@[j]).0 == b;
                assert(!covers(v, entries@[j].0, addr));
            }
        }
    }
    None
}

/// One mapping: the interval `[addr, addr + length)` bound to the data
/// source with id `source`. Mappings are identified by `addr` alone.
#[derive(Clone, Copy, Debug, PartialEq, Eq, Structural)]
pub struct MapEntry {
    pub addr: usize,
    pub length: usize,
    pub source: usize,
}

impl MapEntry {
    /// The first address past the mapping.
    pub fn end(&self) -> (r: usize)
        requires
            self.addr + self.length <= usize::MAX,
        ensures
            r == self.addr + self.length,
    {
        self.addr + self.length
    }
}

/// A bounded virtual address range and the non-overlapping mappings placed
/// in it. The layout parameters are fixed at construction; the mappings
/// live in an ordered store keyed by start address.
pub struct AddressSpace {
    name: String,
    n_pages: usize,
    page_size: usize,
    min_gap: usize,
    mappings: MappingStore,
}

impl View for AddressSpace {
    type V = AsView;

    closed spec fn view(&self) -> AsView {
        AsView {
            name: self.name@,
            n_pages: self.n_pages,
            page_size: self.page_size,
            min_gap: self.min_gap,
            mappings: sg_contents(self.mappings),
        }
    }
}

impl AddressSpace {
    /// The whole-structure invariant, over the view; every operation
    /// preserves it.
    pub open spec fn wf(&self) -> bool {
        inv(self@)
    }

    /// An empty address space of `n_pages` pages of `page_size` bytes,
    /// with `min_gap_size` bytes of mandatory separation between mappings.
    pub fn new(name: String, n_pages: usize, page_size: usize, min_gap_size: usize) -> (r:
        AddressSpace)
        requires
            1 <= page_size,
            1 <= min_gap_size,
            n_pages * page_size <= usize::MAX,
        ensures
            r.wf(),
            r@.name == name@,
            r@.n_pages == n_pages,
            r@.page_size == page_size,
            r@.min_gap == min_gap_size,
            r@.mappings == empty_contents(),
    {
        let r = AddressSpace {
            name,
            n_pages,
            page_size,
            min_gap: min_gap_size,
            mappings: store_new(),
        };
        proof {
            assert(r@.mappings.dom() =~= Set::empty());
        }
        r
    }

    /// The name this address space was created with.
    pub fn name(&self) -> (r: &String)
        ensures
            r@ == self@.name,
    {
        &self.name
    }

    /// Bytes per page.
    pub fn page_size(&self) -> (r: usize)
        ensures
            r == self@.page_size,
    {
        self.page_size
    }

    /// Number of pages in the range.
    pub fn n_pages(&self) -> (r: usize)
        ensures
            r == self@.n_pages,
    {
        self.n_pages
    }

    /// Mandatory separation between mappings, in bytes.
    pub fn min_gap_size(&self) -> (r: usize)
        ensures
            r == self@.min_gap,
    {
        self.min_gap
    }

    /// Total capacity in bytes.
    pub fn total_capacity(&self) -> (r: usize)
        requires
            params_wf(self@),
        ensures
            r == capacity_of(self@),
    {
        self.n_pages * self.page_size
    }

    /// How many mappings the space currently holds.
    pub fn mapping_count(&self) -> (r: usize)
        ensures
            r == self@.mappings.dom().len(),
    {
        let entries = store_entries(&self.mappings);
        entries.len()
    }

    /// Map `length` bytes of the data source with id `source` at the
    /// lowest acceptable address and return that address.
    ///
    /// Fails with `NoSpace` exactly when no address at all qualifies or
    /// the mapping store is already at capacity; the space is then
    /// unchanged.
    pub fn add_mapping(&mut self, source: usize, length: usize) -> (r: Result<usize, AsError>)
        requires
            old(self).wf(),
            1 <= length,
        ensures
            final(self).wf(),
            final(self)@.name == old(self)@.name,
            final(self)@.n_pages == old(self)@.n_pages,
            final(self)@.page_size == old(self)@.page_size,
            final(self)@.min_gap == old(self)@.min_gap,
            match r {
                Ok(a) => is_first_fit(old(self)@, length, a)
                    && !old(self)@.mappings.dom().contains(a)
                    && old(self)@.mappings.dom().len() < MAX_MAPPINGS
                    && final(self)@.mappings == old(self)@.mappings.insert(a, (length, source)),
                Err(e) => e == AsError::NoSpace && final(self)@.mappings == old(self)@.mappings && ((forall|
                    a: usize,
                | !can_place(old(self)@, a, length)) || old(self)@.mappings.dom().len()
                    >= MAX_MAPPINGS),
            },
    {
        let entries = store_entries(&self.mappings);
        let cap: usize = self.n_pages * self.page_size;
        match find_first_fit_in(
            &entries,
            cap,
            self.page_size,
            self.min_gap,
            length,
            Ghost(self@),
        ) {
            None => Err(AsError::NoSpace),
            Some(a) => {
                let ok: bool = store_try_insert(&mut self.mappings, a, (length, source));
                if ok {
                    proof {
                        lemma_insert_preserves_inv(old(self)@, a, length, source);
                    }
                    Ok(a)
                } else {
                    Err(AsError::NoSpace)
                }
            },
        }
    }

    /// Map `length` bytes of the data source with id `source` at exactly
    /// the caller-chosen address `addr`.
    ///
    /// Fails with `NoSpaceAt` exactly when `addr` is unacceptable (collision,
    /// zero page, alignment, or gap) or the mapping store is already at
    /// capacity; the space is then unchanged.
    pub fn add_mapping_at(&mut self, addr: usize, source: usize, length: usize) -> (r: Result<
        (),
        AsError,
    >)
        requires
            old(self).wf(),
            1 <= length,
        ensures
            final(self).wf(),
            final(self)@.name == old(self)@.name,
            final(self)@.n_pages == old(self)@.n_pages,
            final(self)@.page_size == old(self)@.page_size,
            final(self)@.min_gap == old(self)@.min_gap,
            match r {
                Ok(_) => space_at_ok(old(self)@, addr, length)
                    && !old(self)@.mappings.dom().contains(addr)
                    && old(self)@.mappings.dom().len() < MAX_MAPPINGS
                    && final(self)@.mappings == old(self)@.mappings.insert(addr, (length, source)),
                Err(e) => e == AsError::NoSpaceAt && final(self)@.mappings == old(self)@.mappings && (
                !space_at_ok(old(self)@, addr, length) || old(self)@.mappings.dom().len()
                    >= MAX_MAPPINGS),
            },
    {
        let entries = store_entries(&self.mappings);
        let cap: usize = self.n_pages * self.page_size;
        let fits: bool = space_at_in(
            &entries,
            cap,
            self.page_size,
            self.min_gap,
            addr,
            length,
            Ghost(self@),
        );
        if !fits {
            return Err(AsError::NoSpaceAt);
        }
        proof {
            lemma_space_at_implies_can_place(self@, addr, length);
        }
        let ok: bool = store_try_insert(&mut self.mappings, addr, (length, source));
        if ok {
            proof {
                lemma_insert_preserves_inv(old(self)@, addr, length, source);
            }
            Ok(())
        } else {
            Err(AsError::NoSpaceAt)
        }
    }

    /// Remove the mapping that starts at exactly `start`.
    ///
    /// Fails with `NoSuchMapping` exactly when no mapping starts there;
    /// removal is keyed by start address alone.
    pub fn remove_mapping(&mut self, start: usize) -> (r: Result<(), AsError>)
        requires
            old(self).wf(),
        ensures
            final(self).wf(),
            final(self)@.name == old(self)@.name,
            final(self)@.n_pages == old(self)@.n_pages,
            final(self)@.page_size == old(self)@.page_size,
            final(self)@.min_gap == old(self)@.min_gap,
            match r {
                Ok(_) => old(self)@.mappings.dom().contains(start) && final(self)@.mappings == old(
                    self,
                )@.mappings.remove(start),
                Err(e) => e == AsError::NoSuchMapping && !old(self)@.mappings.dom().contains(start)
                    && final(self)@.mappings == old(self)@.mappings,
            },
    {
        match store_remove(&mut self.mappings, start) {
            Some(_) => {
                proof {
                    lemma_remove_preserves_inv(old(self)@, start);
                }
                Ok(())
            },
            None => Err(AsError::NoSuchMapping),
        }
    }

    /// The mappings in ascending address order, as plain entries.
    pub fn mappings_in_order(&self) -> (r: Vec<MapEntry>)
        ensures
            r@.len() == self@.mappings.dom().len(),
            forall|i: int|
                0 <= i < r@.len() ==> self@.mappings.contains_pair(
                    (#[trigger] r@[i]).addr,
                    (r@[i].length, r@[i].source),
                ),
            forall|i: int, j: int| 0 <= i < j < r@.len() ==> r@[i].addr < r@[j].addr,
            forall|b: usize| #[trigger]
                self@.mappings.dom().contains(b) ==> exists|i: int|
                    0 <= i < r@.len() && (#[trigger] r@[i]).addr == b,
    {
        let entries = store_entries(&self.mappings);
        let n: usize = entries.len();
        let mut out: Vec<MapEntry> = Vec::new();
        let mut i: usize = 0;
        while i < n
            invariant
                i <= n,
                n == entries@.len(),
                entries_match(self@.mappings, entries@),
                out@.len() == i,
                forall|j: int|
                    0 <= j < i ==> (#[trigger] out@[j]).addr == entries@[j].0 && out@[j].length
                        == entries@[j].1 && out@[j].source == entries@[j].2,
            decreases n - i,
        {
            let e: (usize, usize, usize) = entries[i];
            out.push(MapEntry { addr: e.0, length: e.1, source: e.2 });
            i = i + 1;
        }
        proof {
            assert forall|b: usize| #[trigger] self@.mappings.dom().contains(b) implies exists|
                i: int,
            | 0 <= i < out@.len() && (#[trigger] out@[i]).addr == b by {
                let j = choose|j: int|
                    0 <= j < entries@.len() && (#[trigger] entries@[j]).0 == b;
                assert(0 <= j < out@.len() && out@[j].addr == b);
            }
        }
        out
    }

    /// The expensive whole-structure check: decide, in one pass over the
    /// mappings, whether every mapping is page-aligned above the zero
    /// page, bounded by the capacity, separated from its neighbours by
    /// the mandatory gap, and whether the store bound holds. Under the
    /// invariant this always answers `true`; it exists so that tests and
    /// debugging can check a tracker from outside.
    #[verifier::rlimit(60)]
    pub fn is_valid(&self) -> (r: bool)
        requires
            params_wf(self@),
        ensures
            r == (mappings_wf(self@) && self@.mappings.dom().len() <= MAX_MAPPINGS),
    {
        let entries = store_entries(&self.mappings);
        let n: usize = entries.len();
        let cap: usize = self.n_pages * self.page_size;
        if n > MAX_MAPPINGS {
            return false;
        }
        let mut i: usize = 0;
        while i < n
            invariant
                i <= n,
                n == entries@.len(),
                entries_match(self@.mappings, entries@),
                params_wf(self@),
                cap == capacity_of(self@),
                forall|j: int| 0 <= j < i ==> entry_wf(self@, (#[trigger] entries@[j]).0),
            decreases n - i,
        {
            let e: (usize, usize, usize) = entries[i];
            proof {
                assert(self@.mappings.contains_pair(e.0, (e.1, e.2)));
            }
            if e.0 < self.page_size || e.0 % self.page_size != 0 || e.1 < 1 {
                return false;
            }
            let end: usize = match e.0.checked_add(e.1) {
                Some(x) => x,
                None => {
                    return false;
                },
            };
            let reach: usize = match end.checked_add(self.min_gap) {
                Some(x) => x,
                None => {
                    return false;
                },
            };
            if reach > cap {
                return false;
            }
            i = i + 1;
        }
        let mut k: usize = 1;
        while k < n
            invariant
                1 <= k,
                n == entries@.len(),
                entries_match(self@.mappings, entries@),
                params_wf(self@),
                cap == capacity_of(self@),
                forall|j: int| 0 <= j < n ==> entry_wf(self@, (#[trigger] entries@[j]).0),
                forall|j: int|
                    1 <= j < k ==> (#[trigger] entries@[j]).0 >= entries@[j - 1].0 + entries@[j
                        - 1].1 + self@.min_gap,
            decreases n - k,
        {
            let prev: (usize, usize, usize) = entries[k - 1];
            let cur: (usize, usize, usize) = entries[k];
            proof {
                assert(self@.mappings.contains_pair(prev.0, (prev.1, prev.2)));
                assert(self@.mappings.contains_pair(cur.0, (cur.1, cur.2)));
            }
            if cur.0 < prev.0 + prev.1 + self.min_gap {
                proof {
                    assert(prev.0 < cur.0);
                    assert(!gap_wf(self@, prev.0, cur.0));
                }
                return false;
            }
            k = k + 1;
        }
        proof {
            assert forall|b: usize| #[trigger] self@.mappings.dom().contains(b) implies entry_wf(
                self@,
                b,
            ) by {
                let j = choose|j: int|
                    0 <= j < entries@.len() && (#[trigger] entries@[j]).0 == b;
            }
            assert forall|b1: usize, b2: usize|
                #![trigger self@.mappings.dom().contains(b1), self@.mappings.dom().contains(b2)]
                self@.mappings.dom().contains(b1) && self@.mappings.dom().contains(b2) implies
                gap_wf(self@, b1, b2) by {
                if b1 < b2 {
                    let j1 = choose|j: int|
                        0 <= j < entries@.len() && (#[trigger] entries@[j]).0 == b1;
                    let j2 = choose|j: int|
                        0 <= j < entries@.len() && (#[trigger] entries@[j]).0 == b2;
                    assert(j1 < j2);
                    assert(entries@[j1 + 1].0 >= entries@[j1].0 + entries@[j1].1 + self@.min_gap);
                    if j1 + 1 < j2 {
                        assert(entries@[j1 + 1].0 < entries@[j2].0);
                    }
                    assert(self@.mappings.contains_pair(b1, (entries@[j1].1, entries@[j1].2)));
                }
            }
        }
        true
    }

    /// Resolve a faulting address: find the mapping whose interval covers
    /// `addr` and return its data-source id and the offset of `addr`
    /// within that mapping, or `None` when no mapping covers `addr`.
    ///
    /// The `access` flags are recorded intent only: this tracker stores no
    /// per-mapping rights, so no permission check happens here.
    #[allow(unused_variables)]
    pub fn get_source_for_addr(&self, addr: usize, access: Flags) -> (r: Option<(usize, usize)>)
        requires
            self.wf(),
        ensures
            match r {
                Some(p) => exists|b: usize|
                    #[trigger] covers(self@, b, addr) && self@.mappings[b].1 == p.0 && p.1 == addr
                        - b,
                None => forall|b: usize| !covers(self@, b, addr),
            },
    {
        let entries = store_entries(&self.mappings);
        resolve_in(&entries, addr, Ghost(self@))
    }
}

/// A caller-chosen address that passes the strict check is in particular a
/// placeable address in the inclusive sense.
proof fn lemma_space_at_implies_can_place(v: AsView, a: usize, len: usize)
    requires
        space_at_ok(v, a, len),
    ensures
        can_place(v, a, len),
{
    assert forall|b: usize| #[trigger] v.mappings.dom().contains(b) implies b + v.mappings[b].0
        + v.min_gap <= a || a + len + v.min_gap <= b by {
        assert(b + v.mappings[b].0 + v.min_gap <= a || a + len + v.min_gap < b);
    }
}

/// Placing a mapping at a fresh, acceptable address keeps the invariant:
/// the new interval is page-aligned above the zero page, bounded by the
/// capacity, and keeps the mandatory gap to every neighbour.
proof fn lemma_insert_preserves_inv(v: AsView, a: usize, length: usize, source: usize)
    requires
        inv(v),
        1 <= length,
        can_place(v, a, length),
        v.mappings.dom().len() < MAX_MAPPINGS,
    ensures
        !v.mappings.dom().contains(a),
        inv(AsView { mappings: v.mappings.insert(a, (length, source)), ..v }),
{
    let v2 = AsView { mappings: v.mappings.insert(a, (length, source)), ..v };
    if v.mappings.dom().contains(a) {
        assert(a + v.mappings[a].0 + v.min_gap <= a || a + length + v.min_gap <= a);
        assert(false);
    }
    assert(v.page_size <= a) by {
        if a < v.page_size {
            lemma_small_mod(a as nat, v.page_size as nat);
        }
    }
    assert(v2.mappings.dom() =~= v.mappings.dom().insert(a));
    assert forall|b: usize| #[trigger] v2.mappings.dom().contains(b) implies entry_wf(v2, b) by {
        if b != a {
            assert(v.mappings.dom().contains(b));
            assert(entry_wf(v, b));
        }
    }
    assert forall|b1: usize, b2: usize|
        #![trigger v2.mappings.dom().contains(b1), v2.mappings.dom().contains(b2)]
        v2.mappings.dom().contains(b1) && v2.mappings.dom().contains(b2) implies gap_wf(
        v2,
        b1,
        b2,
    ) by {
        if b1 != a && b2 != a {
            assert(gap_wf(v, b1, b2));
        } else if b1 == a && b2 != a {
            assert(v.mappings.dom().contains(b2));
        } else if b1 != a && b2 == a {
            assert(v.mappings.dom().contains(b1));
        }
    }
}

/// Law: under the invariant, the intervals of two distinct mappings are
/// disjoint, with at least `min_gap` free bytes between the end of the
/// lower and the start of the higher.
pub proof fn lemma_no_overlap(v: AsView, a1: usize, a2: usize)
    requires
        inv(v),
        v.mappings.dom().contains(a1),
        v.mappings.dom().contains(a2),
        a1 != a2,
    ensures
        a1 < a2 ==> a1 + v.mappings[a1].0 + v.min_gap <= a2,
        a2 < a1 ==> a2 + v.mappings[a2].0 + v.min_gap <= a1,
{
    assert(gap_wf(v, a1, a2));
    assert(gap_wf(v, a2, a1));
}

/// Law: under the invariant no mapping starts below `page_size`; the zero
/// page is permanently reserved.
pub proof fn lemma_zero_page_reserved(v: AsView, a: usize)
    requires
        inv(v),
        v.mappings.dom().contains(a),
    ensures
        v.page_size <= a,
{
    assert(entry_wf(v, a));
}

/// Law: under the invariant every mapping's start address is a multiple of
/// the page size.
pub proof fn lemma_mappings_aligned(v: AsView, a: usize)
    requires
        inv(v),
        v.mappings.dom().contains(a),
    ensures
        (a as int) % (v.page_size as int) == 0,
{
    assert(entry_wf(v, a));
}

/// Law: at most one mapping covers any given address, so resolution is
/// unambiguous.
pub proof fn lemma_covers_unique(v: AsView, b1: usize, b2: usize, a: usize)
    requires
        inv(v),
        covers(v, b1, a),
        covers(v, b2, a),
    ensures
        b1 == b2,
{
    if b1 < b2 {
        assert(gap_wf(v, b1, b2));
    }
    if b2 < b1 {
        assert(gap_wf(v, b2, b1));
    }
}

/// Law (round trip): adding a mapping at a placeable address and removing
/// it again restores the address space exactly as it was before the add.
pub proof fn lemma_add_remove_round_trip(v: AsView, a: usize, length: usize, source: usize)
    requires
        params_wf(v),
        can_place(v, a, length),
    ensures
        (AsView { mappings: v.mappings.insert(a, (length, source)).remove(a), ..v }) == v,
{
    if v.mappings.dom().contains(a) {
        assert(a + v.mappings[a].0 + v.min_gap <= a || a + length + v.min_gap <= a);
        assert(false);
    }
    assert(v.mappings.insert(a, (length, source)).remove(a) =~= v.mappings);
    assert((AsView { mappings: v.mappings.insert(a, (length, source)).remove(a), ..v }) =~= v);
}

/// Law (monotonic placement): once a first-fit request has been placed at
/// `a1`, the first-fit answer for any request at least as long lands
/// strictly above `a1`; repeated placement of non-decreasing lengths
/// yields strictly increasing addresses.
pub proof fn lemma_first_fit_monotone(
    v: AsView,
    len1: usize,
    len2: usize,
    a1: usize,
    a2: usize,
    source: usize,
)
    requires
        params_wf(v),
        len1 <= len2,
        is_first_fit(v, len1, a1),
        is_first_fit(AsView { mappings: v.mappings.insert(a1, (len1, source)), ..v }, len2, a2),
    ensures
        a1 < a2,
{
    let v2 = AsView { mappings: v.mappings.insert(a1, (len1, source)), ..v };
    if v.mappings.dom().contains(a1) {
        assert(a1 + v.mappings[a1].0 + v.min_gap <= a1 || a1 + len1 + v.min_gap <= a1);
        assert(false);
    }
    if a2 == a1 {
        assert(v2.mappings.dom().contains(a1));
        assert(a1 + v2.mappings[a1].0 + v.min_gap <= a2 || a2 + len2 + v.min_gap <= a1);
        assert(false);
    }
    if a2 < a1 {
        assert forall|b: usize| #[trigger] v.mappings.dom().contains(b) implies b
            + v.mappings[b].0 + v.min_gap <= a2 || a2 + len1 + v.min_gap <= b by {
            assert(v2.mappings.dom().contains(b));
            assert(b + v2.mappings[b].0 + v.min_gap <= a2 || a2 + len2 + v.min_gap <= b);
        }
        assert(can_place(v, a2, len1));
        assert(false);
    }
}

/// Removing a mapping keeps the invariant: every remaining mapping was
/// already well-placed and separated.
proof fn lemma_remove_preserves_inv(v: AsView, a: usize)
    requires
        inv(v),
    ensures
        inv(AsView { mappings: v.mappings.remove(a), ..v }),
{
    let v2 = AsView { mappings: v.mappings.remove(a), ..v };
    assert(v2.mappings.dom() =~= v.mappings.dom().remove(a));
    assert forall|b: usize| #[trigger] v2.mappings.dom().contains(b) implies entry_wf(v2, b) by {
        assert(v.mappings.dom().contains(b));
        assert(entry_wf(v, b));
    }
    assert forall|b1: usize, b2: usize|
        #![trigger v2.mappings.dom().contains(b1), v2.mappings.dom().contains(b2)]
        v2.mappings.dom().contains(b1) && v2.mappings.dom().contains(b2) implies gap_wf(
        v2,
        b1,
        b2,
    ) by {
        assert(v.mappings.dom().contains(b1));
        assert(v.mappings.dom().contains(b2));
        assert(gap_wf(v, b1, b2));
    }
}

} // verus!
