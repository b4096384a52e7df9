use vstd::prelude::*;
use vstd::seq_lib::group_to_multiset_ensures;
use vstd::seq_lib::to_multiset_insert;
use vstd::seq_lib::to_multiset_remove;
use crate::pack::Pack;
use crate::pack::ViolationIdentifier;
use crate::strutil::lemma_pack_order_total;
use crate::strutil::lemma_pack_order_trans;
use crate::strutil::pack_order_le;
use crate::strutil::pack_order_le_exec;
use crate::strutil::spec_trim_one_trailing_slash;
use crate::strutil::trim_one_trailing_slash;

verus! {

/// The reserved name of the project-root pack.
pub open spec fn root_pack_name() -> Seq<char> {
    seq!['.']
}

/// Why constructing a `PackSet` failed.
#[derive(Clone, Copy, Debug, PartialEq, Eq, Structural)]
pub enum PackSetError {
    /// No pack with the reserved root name `.` was given.
    MissingRootPack,
}

/// Whether some pack in `packs` is named `name`.
pub open spec fn packs_have_name(packs: Seq<Pack>, name: Seq<char>) -> bool {
    exists|i: int| 0 <= i < packs.len() && packs[i]@.name == name
}

/// Whether the packs are ordered by name length descending, then name
/// ascending.
pub open spec fn packs_sorted(packs: Seq<Pack>) -> bool {
    forall|a: int, b: int|
        0 <= a < b < packs.len() ==> pack_order_le(packs[a]@.name, packs[b]@.name)
}

/// Whether no two packs share a name.
pub open spec fn pack_names_unique(packs: Seq<Pack>) -> bool {
    forall|i: int, j: int|
        0 <= i < j < packs.len() ==> packs[i]@.name != packs[j]@.name
}

/// Whether no two packs share a configuration-file path.
pub open spec fn pack_ymls_unique(packs: Seq<Pack>) -> bool {
    forall|i: int, j: int|
        0 <= i < j < packs.len() ==> packs[i]@.yml != packs[j]@.yml
}

/// Whether `vs` holds a violation whose identifier reads `x`.
pub open spec fn has_violation_view(vs: Seq<ViolationIdentifier>, x: Seq<char>) -> bool {
    exists|m: int| 0 <= m < vs.len() && vs[m]@ == x
}

/// Whether some pack in `packs` records a violation whose identifier reads `x`.
pub open spec fn packs_have_violation(packs: Seq<Pack>, x: Seq<char>) -> bool {
    exists|a: int, b: int|
        0 <= a < packs.len() && 0 <= b < packs[a]@.violations.len() && packs[a]@.violations[b] == x
}

/// The name of the pack whose configuration file is `yml`, if any.
pub open spec fn yml_owner(packs: Seq<Pack>, yml: Seq<char>) -> Option<Seq<char>> {
    if exists|i: int| 0 <= i < packs.len() && packs[i]@.yml == yml {
        let i = choose|i: int| 0 <= i < packs.len() && packs[i]@.yml == yml;
        Some(packs[i]@.name)
    } else {
        None
    }
}

/// Whether `mapping` pairs `file` with a configuration file.
pub open spec fn maps_file(mapping: Seq<(String, String)>, file: Seq<char>) -> bool {
    exists|k: int| 0 <= k < mapping.len() && (#[trigger] mapping[k]).0@ == file
}

/// Whether the ownership table `own` records an owner for `file`.
pub open spec fn records_file(own: Seq<(String, String)>, file: Seq<char>) -> bool {
    exists|m: int| 0 <= m < own.len() && (#[trigger] own[m]).0@ == file
}

/// Whether the table entry `e` is justified by the inputs: its file is mapped
/// to the configuration file of the pack it names.
pub open spec fn owning_entry_ok(
    packs: Seq<Pack>,
    mapping: Seq<(String, String)>,
    e: (String, String),
) -> bool {
    exists|k: int, i: int|
        0 <= k < mapping.len() && 0 <= i < packs.len() && e.0@ == (#[trigger] mapping[k]).0@
            && (#[trigger] packs[i])@.yml == mapping[k].1@ && e.1@ == packs[i]@.name
}

/// The owner `file` resolves to under `mapping`, which pairs each file with
/// its nearest package-configuration file: the name of the pack owning that
/// configuration file, if both are known.
pub open spec fn mapped_owner(
    packs: Seq<Pack>,
    mapping: Seq<(String, String)>,
    file: Seq<char>,
) -> Option<Seq<char>> {
    if maps_file(mapping, file) {
        let k = choose|k: int| 0 <= k < mapping.len() && (#[trigger] mapping[k]).0@ == file;
        yml_owner(packs, mapping[k].1@)
    } else {
        None
    }
}

/// The set of all packs of a project, indexed for ownership lookups. Built
/// once, read-only afterward.
pub struct PackSet {
    /// All packs, sorted by name length descending, then name ascending.
    pub packs: Vec<Pack>,
    pub owning_pack_name_for_file: Vec<(String, String)>,
    /// Every previously recorded violation across all packs, deduplicated.
    pub all_violations: Vec<ViolationIdentifier>,
}

impl PackSet {
    /// The file-to-owner table: pairs of a file path and the owning pack name.
    pub open spec fn spec_owning(self) -> Seq<(String, String)> {
        self.owning_pack_name_for_file@
    }

    /// Whether this set holds a pack named `name`.
    pub open spec fn has_pack(self, name: Seq<char>) -> bool {
        packs_have_name(self.packs@, name)
    }

    /// The owner recorded for `file`, if any.
    pub open spec fn spec_owner_of(self, file: Seq<char>) -> Option<Seq<char>> {
        if records_file(self.spec_owning(), file) {
            let k = choose|k: int|
                0 <= k < self.spec_owning().len() && (#[trigger] self.spec_owning()[k]).0@ == file;
            Some(self.spec_owning()[k].1@)
        } else {
            None
        }
    }

    /// Internal consistency of a built pack set.
    pub open spec fn wf(self) -> bool {
        &&& pack_names_unique(self.packs@)
        &&& packs_sorted(self.packs@)
        &&& self.has_pack(root_pack_name())
        &&& forall|k: int|
            0 <= k < self.spec_owning().len() ==> self.has_pack(#[trigger] self.spec_owning()[k].1@)
        &&& forall|k: int, l: int|
            0 <= k < l < self.spec_owning().len() ==> self.spec_owning()[k].0@ != self.spec_owning()[l].0@
        &&& forall|m: int, n: int|
            0 <= m < n < self.all_violations@.len() ==> self.all_violations@[m]@ != self.all_violations@[n]@
    }
}

/// Index of the first pack named exactly `name`, if any.
fn find_pack_index(packs: &Vec<Pack>, name: &String) -> (r: Option<usize>)
    ensures
        match r {
            Some(i) => 0 <= i < packs@.len() && packs@[i as int]@.name == name@,
            None => !packs_have_name(packs@, name@),
        },
{
    let mut i: usize = 0;
    while i < packs.len()
        invariant
            i <= packs@.len(),
            forall|j: int| 0 <= j < i ==> packs@[j]@.name != name@,
        decreases packs@.len() - i,
    {
        if packs[i].name == *name {
            return Some(i);
        }
        i = i + 1;
    }
    None
}

/// Index of the first pack whose configuration file is `yml`, if any.
fn find_pack_index_by_yml(packs: &Vec<Pack>, yml: &String) -> (r: Option<usize>)
    ensures
        match r {
            Some(i) => 0 <= i < packs@.len() && packs@[i as int]@.yml == yml@,
            None => !(exists|j: int| 0 <= j < packs@.len() && packs@[j]@.yml == yml@),
        },
{
    let mut i: usize = 0;
    while i < packs.len()
        invariant
            i <= packs@.len(),
            forall|j: int| 0 <= j < i ==> packs@[j]@.yml != yml@,
        decreases packs@.len() - i,
    {
        if packs[i].yml == *yml {
            return Some(i);
        }
        i = i + 1;
    }
    None
}

/// Position where `p` belongs in the sorted prefix `out`.
fn insertion_position(out: &Vec<Pack>, p: &Pack) -> (j: usize)
    ensures
        j <= out@.len(),
        forall|k: int| 0 <= k < j ==> pack_order_le(#[trigger] out@[k]@.name, p@.name),
        j < out@.len() ==> !pack_order_le(out@[j as int]@.name, p@.name),
{
    let mut j: usize = 0;
    while j < out.len()
        invariant
            j <= out@.len(),
            forall|k: int| 0 <= k < j ==> pack_order_le(#[trigger] out@[k]@.name, p@.name),
        decreases out@.len() - j,
    {
        let q = &out[j];
        if !pack_order_le_exec(q.name.as_str(), p.name.as_str()) {
            return j;
        }
        j = j + 1;
    }
    j
}

/// Sorts the packs by name length descending, then name ascending.
fn sort_packs(packs: Vec<Pack>) -> (r: Vec<Pack>)
    requires
        pack_names_unique(packs@),
    ensures
        r@.to_multiset() == packs@.to_multiset(),
        r@.len() == packs@.len(),
        packs_sorted(r@),
        pack_names_unique(r@),
{
    broadcast use group_to_multiset_ensures;
    broadcast use to_multiset_insert;
    broadcast use to_multiset_remove;

    let ghost orig: Seq<Pack> = packs@;
    let mut rest = packs;
    let mut out: Vec<Pack> = Vec::new();
    while rest.len() > 0
        invariant
            out@.to_multiset().add(rest@.to_multiset()) == orig.to_multiset(),
            out@.len() + rest@.len() == orig.len(),
            packs_sorted(out@),
            pack_names_unique(out@),
            pack_names_unique(rest@),
            forall|m: int, n: int|
                0 <= m < out@.len() && 0 <= n < rest@.len() ==> out@[m]@.name != rest@[n]@.name,
        decreases rest@.len(),
    {
        let ghost rest0 = rest@;
        let ghost out0 = out@;
        let p = rest.remove(0);
        let j = insertion_position(&out, &p);
        proof {
            if j < out0.len() {
                lemma_pack_order_total(out0[j as int]@.name, p@.name);
            }
        }
        out.insert(j, p);
        proof {
            let nv = out@;
            assert(nv == out0.insert(j as int, p));
            assert forall|a: int, b: int| 0 <= a < b < nv.len() implies pack_order_le(
                nv[a]@.name,
                nv[b]@.name,
            ) by {
                if a < j && b == j {
                } else if a == j && b > j + 1 {
                    lemma_pack_order_trans(p@.name, out0[j as int]@.name, out0[b - 1]@.name);
                }
            }
            broadcast use vstd::multiset::group_multiset_axioms;

            to_multiset_remove(rest0, 0);
            to_multiset_insert(out0, j as int, p);
            assert(rest@ == rest0.remove(0));
            assert(rest0[0] == p);
            assert(rest0.contains(p));
            rest0.to_multiset_ensures();
            assert(rest0.to_multiset().count(p) > 0);
            assert(out@.to_multiset().add(rest@.to_multiset()) =~= orig.to_multiset());
        }
    }
    out
}

/// Whether `vs` already holds a violation with the same identifier as `v`.
fn contains_violation(vs: &Vec<ViolationIdentifier>, v: &ViolationIdentifier) -> (r: bool)
    ensures
        r == has_violation_view(vs@, v@),
{
    let mut m: usize = 0;
    while m < vs.len()
        invariant
            m <= vs@.len(),
            forall|n: int| 0 <= n < m ==> vs@[n]@ != v@,
        decreases vs@.len() - m,
    {
        if vs[m].eq(v) {
            return true;
        }
        m = m + 1;
    }
    false
}

/// Gathers every violation recorded by any pack, dropping exact duplicates.
fn collect_violations(packs: &Vec<Pack>) -> (r: Vec<ViolationIdentifier>)
    ensures
        forall|x: Seq<char>|
            #[trigger] has_violation_view(r@, x) == packs_have_violation(packs@, x),
        forall|m: int, n: int| 0 <= m < n < r@.len() ==> r@[m]@ != r@[n]@,
{
    let mut all: Vec<ViolationIdentifier> = Vec::new();
    let mut a: usize = 0;
    while a < packs.len()
        invariant
            a <= packs@.len(),
            forall|x: Seq<char>|
                #[trigger] has_violation_view(all@, x) == packs_have_violation(
                    packs@.take(a as int),
                    x,
                ),
            forall|m: int, n: int| 0 <= m < n < all@.len() ==> all@[m]@ != all@[n]@,
        decreases packs@.len() - a,
    {
        let ghost prefix = packs@.take(a as int);
        let pack = &packs[a];
        let mut b: usize = 0;
        while b < pack.violations.len()
            invariant
                b <= pack.violations@.len(),
                pack == &packs@[a as int],
                a < packs@.len(),
                prefix == packs@.take(a as int),
                forall|x: Seq<char>|
                    #[trigger] has_violation_view(all@, x) == (packs_have_violation(prefix, x)
                        || has_violation_view(pack.violations@.take(b as int), x)),
                forall|m: int, n: int| 0 <= m < n < all@.len() ==> all@[m]@ != all@[n]@,
            decreases pack.violations@.len() - b,
        {
            let v = &pack.violations[b];
            let ghost all0 = all@;
            let ghost bv0 = pack.violations@.take(b as int);
            let dup = contains_violation(&all, v);
            if !dup {
                all.push(v.clone());
            }
            proof {
                let bv1 = pack.violations@.take(b + 1);
                assert(bv1 =~= bv0.push(pack.violations@[b as int]));
                assert forall|x: Seq<char>| #[trigger] has_violation_view(bv1, x)
                    == (has_violation_view(bv0, x) || x == v@) by {
                    if has_violation_view(bv0, x) {
                        let m = choose|m: int| 0 <= m < bv0.len() && bv0[m]@ == x;
                        assert(bv1[m]@ == x);
                    }
                    if x == v@ {
                        assert(bv1[bv1.len() - 1]@ == x);
                    }
                    if has_violation_view(bv1, x) {
                        let m = choose|m: int| 0 <= m < bv1.len() && bv1[m]@ == x;
                        if m < bv0.len() {
                            assert(bv0[m]@ == x);
                        } else {
                            assert(x == v@);
                        }
                    }
                }
                assert forall|x: Seq<char>| #[trigger] has_violation_view(all@, x)
                    == (has_violation_view(all0, x) || x == v@) by {
                    if has_violation_view(all0, x) {
                        let m = choose|m: int| 0 <= m < all0.len() && all0[m]@ == x;
                        assert(all@[m]@ == x);
                    }
                    if x == v@ {
                        if dup {
                            assert(has_violation_view(all0, v@));
                        } else {
                            assert(all@[all@.len() - 1]@ == x);
                        }
                    }
                    if has_violation_view(all@, x) {
                        let m = choose|m: int| 0 <= m < all@.len() && all@[m]@ == x;
                        if m < all0.len() {
                            assert(all0[m]@ == x);
                        } else {
                            assert(x == v@);
                        }
                    }
                }
            }
            b = b + 1;
        }
        proof {
            assert(pack.violations@.take(pack.violations@.len() as int) =~= pack.violations@);
            let av = packs@.take(a + 1);
            assert(av =~= prefix.push(packs@[a as int]));
            assert forall|x: Seq<char>| #[trigger] packs_have_violation(av, x)
                == (packs_have_violation(prefix, x) || has_violation_view(
                pack.violations@,
                x,
            )) by {
                if packs_have_violation(prefix, x) {
                    let (i, j): (int, int) = choose|i: int, j: int|
                        0 <= i < prefix.len() && 0 <= j < prefix[i]@.violations.len()
                            && prefix[i]@.violations[j] == x;
                    assert(av[i]@.violations[j] == x);
                }
                if has_violation_view(pack.violations@, x) {
                    let j = choose|j: int|
                        0 <= j < pack.violations@.len() && pack.violations@[j]@ == x;
                    assert(av[a as int]@.violations[j] == x);
                }
                if packs_have_violation(av, x) {
                    let (i, j): (int, int) = choose|i: int, j: int|
                        0 <= i < av.len() && 0 <= j < av[i]@.violations.len()
                            && av[i]@.violations[j] == x;
                    if i < a as int {
                        assert(prefix[i]@.violations[j] == x);
                    } else {
                        assert(pack.violations@[j]@ == x);
                    }
                }
            }
        }
        a = a + 1;
    }
    proof {
        assert(packs@.take(packs@.len() as int) =~= packs@);
    }
    all
}

/// Records, for every file whose configuration file belongs to a known pack,
/// the owning pack's name.
fn build_owning(packs: &Vec<Pack>, mapping: &Vec<(String, String)>) -> (r: Vec<(String, String)>)
    requires
        forall|k: int, l: int| 0 <= k < l < mapping@.len() ==> mapping@[k].0@ != mapping@[l].0@,
    ensures
        forall|m: int| 0 <= m < r@.len() ==> owning_entry_ok(packs@, mapping@, #[trigger] r@[m]),
        forall|k: int|
            0 <= k < mapping@.len() && yml_owner(packs@, (#[trigger] mapping@[k]).1@) is Some
                ==> records_file(r@, mapping@[k].0@),
        forall|m: int, n: int| 0 <= m < n < r@.len() ==> r@[m].0@ != r@[n].0@,
{
    let mut owning: Vec<(String, String)> = Vec::new();
    // For each recorded entry, the mapping index and pack index it came from;
    // for each matched mapping index, the entry recorded for it.
    let ghost mut src_map: Seq<int> = Seq::empty();
    let ghost mut src_pack: Seq<int> = Seq::empty();
    let ghost mut entry_of: Map<int, int> = Map::empty();
    let mut k: usize = 0;
    while k < mapping.len()
        invariant
            k <= mapping@.len(),
            forall|k1: int, l: int|
                0 <= k1 < l < mapping@.len() ==> mapping@[k1].0@ != mapping@[l].0@,
            src_map.len() == owning@.len(),
            src_pack.len() == owning@.len(),
            forall|m: int|
                0 <= m < owning@.len() ==> 0 <= #[trigger] src_map[m] < k,
            forall|m: int, n: int|
                0 <= m < n < owning@.len() ==> #[trigger] src_map[m] < #[trigger] src_map[n],
            forall|m: int|
                0 <= m < owning@.len() ==> 0 <= #[trigger] src_pack[m] < packs@.len(),
            forall|m: int|
                0 <= m < owning@.len() ==> (#[trigger] owning@[m]).0@ == mapping@[src_map[m]].0@,
            forall|m: int|
                0 <= m < owning@.len() ==> (#[trigger] owning@[m]).1@
                    == packs@[src_pack[m]]@.name,
            forall|m: int|
                0 <= m < owning@.len() ==> packs@[#[trigger] src_pack[m]]@.yml
                    == mapping@[src_map[m]].1@,
            forall|k1: int|
                0 <= k1 < k && (exists|i: int|
                    0 <= i < packs@.len() && (#[trigger] packs@[i])@.yml == mapping@[k1].1@)
                    ==> entry_of.dom().contains(k1),
            forall|k1: int|
                #[trigger] entry_of.dom().contains(k1) ==> 0 <= entry_of[k1] < owning@.len()
                    && 0 <= k1 < mapping@.len() && owning@[entry_of[k1]].0@ == mapping@[k1].0@,
        decreases mapping@.len() - k,
    {
        let pair = &mapping[k];
        let ghost kk = k as int;
        match find_pack_index_by_yml(packs, &pair.1) {
            Some(i) => {
                owning.push((pair.0.clone(), packs[i].name.clone()));
                proof {
                    src_map = src_map.push(kk);
                    src_pack = src_pack.push(i as int);
                    entry_of = entry_of.insert(kk, owning@.len() - 1);
                }
            },
            None => {
            },
        }
        k = k + 1;
    }
    proof {
        assert forall|m: int| 0 <= m < owning@.len() implies owning_entry_ok(
            packs@,
            mapping@,
            #[trigger] owning@[m],
        ) by {
            let k1 = src_map[m];
            let i1 = src_pack[m];
            assert(0 <= k1 < mapping@.len() && 0 <= i1 < packs@.len() && owning@[m].0@
                == mapping@[k1].0@ && packs@[i1]@.yml == mapping@[k1].1@ && owning@[m].1@
                == packs@[i1]@.name);
        }
        assert forall|k1: int|
            0 <= k1 < mapping@.len() && yml_owner(packs@, (#[trigger] mapping@[k1]).1@) is Some
            implies records_file(owning@, mapping@[k1].0@) by {
            assert(exists|i: int|
                0 <= i < packs@.len() && (#[trigger] packs@[i])@.yml == mapping@[k1].1@);
            assert(entry_of.dom().contains(k1));
            let m = entry_of[k1];
            assert(0 <= m < owning@.len() && (owning@[m]).0@ == mapping@[k1].0@);
        }
        assert forall|m: int, n: int| 0 <= m < n < owning@.len() implies owning@[m].0@
            != owning@[n].0@ by {
            assert(owning@[m].0@ == mapping@[src_map[m]].0@);
            assert(owning@[n].0@ == mapping@[src_map[n]].0@);
            assert(src_map[m] < src_map[n]);
        }
    }
    owning
}

impl PackSet {
    /// Builds the pack set from the full pack collection and the mapping from
    /// each analyzed file to its nearest package-configuration file.
    ///
    /// Fails exactly when no pack carries the reserved root name `.`.
    pub fn build(packs: Vec<Pack>, owning_package_yml_for_file: Vec<(String, String)>) -> (r:
        Result<PackSet, PackSetError>)
        requires
            pack_names_unique(packs@),
            pack_ymls_unique(packs@),
            forall|k: int, l: int|
                0 <= k < l < owning_package_yml_for_file@.len()
                    ==> owning_package_yml_for_file@[k].0@ != owning_package_yml_for_file@[l].0@,
        ensures
            r is Ok <==> packs_have_name(packs@, root_pack_name()),
            match r {
                Ok(ps) => {
                    &&& ps.wf()
                    &&& ps.packs@.to_multiset() == packs@.to_multiset()
                    &&& ps.packs@.len() == packs@.len()
                    &&& forall|x: Seq<char>|
                        has_violation_view(ps.all_violations@, x) == packs_have_violation(
                            packs@,
                            x,
                        )
                    &&& forall|file: Seq<char>|
                        #[trigger] ps.spec_owner_of(file) == mapped_owner(
                            packs@,
                            owning_package_yml_for_file@,
                            file,
                        )
                },
                Err(e) => e == PackSetError::MissingRootPack,
            },
    {
        broadcast use group_to_multiset_ensures;

        let dot: String = ".".to_owned();
        proof {
            reveal_strlit(".");
            assert(dot@ =~= root_pack_name());
        }
        let root = find_pack_index(&packs, &dot);
        if root.is_none() {
            return Err(PackSetError::MissingRootPack);
        }

        let sorted = sort_packs(packs);
        let all_violations = collect_violations(&sorted);
        let owning = build_owning(&sorted, &owning_package_yml_for_file);

        let ps = PackSet { packs: sorted, owning_pack_name_for_file: owning, all_violations };

        proof {
            let sv = ps.packs@;
            let pv = packs@;
            let mapping = owning_package_yml_for_file@;
            assert forall|x: Pack| sv.contains(x) == pv.contains(x) by {
                assert(sv.contains(x) <==> sv.to_multiset().count(x) > 0);
                assert(pv.contains(x) <==> pv.to_multiset().count(x) > 0);
            }
            // The root pack survives sorting.
            assert(pv.contains(pv[choose|i: int|
                0 <= i < pv.len() && pv[i]@.name == root_pack_name()]));
            assert(ps.has_pack(root_pack_name())) by {
                let i = choose|i: int| 0 <= i < pv.len() && pv[i]@.name == root_pack_name();
                assert(sv.contains(pv[i]));
                let j = choose|j: int| 0 <= j < sv.len() && sv[j] == pv[i];
                assert(sv[j]@.name == root_pack_name());
            }
            // Every recorded owner is a known pack name.
            assert forall|k: int| 0 <= k < ps.spec_owning().len() implies ps.has_pack(
                #[trigger] ps.spec_owning()[k].1@,
            ) by {
                let (k1, i1): (int, int) = choose|k1: int, i1: int|
                    0 <= k1 < mapping.len() && 0 <= i1 < sv.len() && ps.spec_owning()[k].0@
                        == mapping[k1].0@ && sv[i1]@.yml == mapping[k1].1@
                        && ps.spec_owning()[k].1@ == sv[i1]@.name;
                assert(sv[i1]@.name == ps.spec_owning()[k].1@);
            }
            assert(ps.wf());
            // Violations carry over between the input order and the sorted order.
            assert forall|x: Seq<char>| packs_have_violation(sv, x) == packs_have_violation(
                pv,
                x,
            ) by {
                if packs_have_violation(sv, x) {
                    let (a, b): (int, int) = choose|a: int, b: int|
                        0 <= a < sv.len() && 0 <= b < sv[a]@.violations.len()
                            && sv[a]@.violations[b] == x;
                    assert(pv.contains(sv[a]));
                    let a1 = choose|a1: int| 0 <= a1 < pv.len() && pv[a1] == sv[a];
                    assert(pv[a1]@.violations[b] == x);
                }
                if packs_have_violation(pv, x) {
                    let (a, b): (int, int) = choose|a: int, b: int|
                        0 <= a < pv.len() && 0 <= b < pv[a]@.violations.len()
                            && pv[a]@.violations[b] == x;
                    assert(sv.contains(pv[a]));
                    let a1 = choose|a1: int| 0 <= a1 < sv.len() && sv[a1] == pv[a];
                    assert(sv[a1]@.violations[b] == x);
                }
            }
            // The ownership table realizes `mapped_owner` over the inputs.
            assert forall|file: Seq<char>| #[trigger] ps.spec_owner_of(file) == mapped_owner(
                pv,
                mapping,
                file,
            ) by {
                lemma_owner_characterization(ps, pv, sv, mapping, file);
            }
        }
        Ok(ps)
    }
}

proof fn lemma_owner_characterization(
    ps: PackSet,
    pv: Seq<Pack>,
    sv: Seq<Pack>,
    mapping: Seq<(String, String)>,
    file: Seq<char>,
)
    requires
        sv == ps.packs@,
        pack_ymls_unique(pv),
        sv.to_multiset() == pv.to_multiset(),
        forall|k: int, l: int| 0 <= k < l < mapping.len() ==> mapping[k].0@ != mapping[l].0@,
        forall|m: int, n: int|
            0 <= m < n < ps.spec_owning().len() ==> ps.spec_owning()[m].0@
                != ps.spec_owning()[n].0@,
        forall|m: int|
            0 <= m < ps.spec_owning().len() ==> owning_entry_ok(
                sv,
                mapping,
                #[trigger] ps.spec_owning()[m],
            ),
        forall|k: int|
            0 <= k < mapping.len() && yml_owner(sv, (#[trigger] mapping[k]).1@) is Some
                ==> records_file(ps.spec_owning(), mapping[k].0@),
    ensures
        ps.spec_owner_of(file) == mapped_owner(pv, mapping, file),
{
    broadcast use group_to_multiset_ensures;

    let own = ps.spec_owning();
    assert forall|x: Pack| sv.contains(x) == pv.contains(x) by {
        assert(sv.contains(x) <==> sv.to_multiset().count(x) > 0);
        assert(pv.contains(x) <==> pv.to_multiset().count(x) > 0);
    }
    if records_file(own, file) {
        let m = choose|m: int| 0 <= m < own.len() && (#[trigger] own[m]).0@ == file;
        assert(ps.spec_owner_of(file) == Some(own[m].1@));
        assert(owning_entry_ok(sv, mapping, own[m]));
        let (k, i): (int, int) = choose|k: int, i: int|
            0 <= k < mapping.len() && 0 <= i < sv.len() && own[m].0@ == (#[trigger] mapping[k]).0@
                && (#[trigger] sv[i])@.yml == mapping[k].1@ && own[m].1@ == sv[i]@.name;
        // `file` occurs in the mapping, so `mapped_owner` picks an index with
        // the same file; distinct files force it to be `k`.
        assert(mapping[k].0@ == file);
        assert(maps_file(mapping, file));
        let k1 = choose|k1: int| 0 <= k1 < mapping.len() && (#[trigger] mapping[k1]).0@ == file;
        assert(k1 == k) by {
            if k1 != k {
                assert(mapping[k1].0@ == mapping[k].0@);
            }
        }
        // The pack owning that configuration file is unique by yml.
        assert(sv.contains(sv[i]));
        assert(pv.contains(sv[i]));
        let i1 = choose|i1: int| 0 <= i1 < pv.len() && pv[i1] == sv[i];
        assert(pv[i1]@.yml == mapping[k].1@);
        let i2 = choose|i2: int| 0 <= i2 < pv.len() && pv[i2]@.yml == mapping[k].1@;
        assert(i2 == i1) by {
            if i2 != i1 {
                assert(pv[i1]@.yml == pv[i2]@.yml);
            }
        }
        assert(yml_owner(pv, mapping[k].1@) == Some(pv[i1]@.name));
        assert(mapped_owner(pv, mapping, file) == Some(sv[i]@.name));
    } else {
        assert(ps.spec_owner_of(file) is None);
        if maps_file(mapping, file) {
            let k = choose|k: int| 0 <= k < mapping.len() && (#[trigger] mapping[k]).0@ == file;
            if exists|i: int| 0 <= i < pv.len() && (#[trigger] pv[i])@.yml == mapping[k].1@ {
                let i = choose|i: int|
                    0 <= i < pv.len() && (#[trigger] pv[i])@.yml == mapping[k].1@;
                assert(pv.contains(pv[i]));
                assert(sv.contains(pv[i]));
                let i1 = choose|i1: int| 0 <= i1 < sv.len() && sv[i1] == pv[i];
                assert(sv[i1]@.yml == mapping[k].1@);
                assert(yml_owner(sv, mapping[k].1@) is Some);
                assert(records_file(own, mapping[k].0@));
                let m = choose|m: int|
                    0 <= m < own.len() && (#[trigger] own[m]).0@ == mapping[k].0@;
                assert(own[m].0@ == file);
                assert(false);
            }
            assert(yml_owner(pv, mapping[k].1@) is None);
        }
        assert(mapped_owner(pv, mapping, file) is None);
    }
}

impl PackSet {
    /// The pack owning `absolute_file_path`, if the file has a recorded owner.
    pub fn for_file(&self, absolute_file_path: &str) -> (r: Option<&Pack>)
        requires
            self.wf(),
        ensures
            match r {
                Some(p) => self.spec_owner_of(absolute_file_path@) == Some(p@.name) && exists|
                    i: int,
                |
                    0 <= i < self.packs@.len() && self.packs@[i] == *p,
                None => self.spec_owner_of(absolute_file_path@) is None,
            },
    {
        let file: String = absolute_file_path.to_owned();
        let mut m: usize = 0;
        while m < self.owning_pack_name_for_file.len()
            invariant
                m <= self.spec_owning().len(),
                file@ == absolute_file_path@,
                self.wf(),
                forall|n: int| 0 <= n < m ==> self.spec_owning()[n].0@ != absolute_file_path@,
            decreases self.spec_owning().len() - m,
        {
            if self.owning_pack_name_for_file[m].0 == file {
                proof {
                    let k = choose|k: int|
                        0 <= k < self.spec_owning().len() && self.spec_owning()[k].0@
                            == absolute_file_path@;
                    assert(k == m as int) by {
                        if k != m as int {
                            assert(self.spec_owning()[k].0@ == self.spec_owning()[m as int].0@);
                        }
                    }
                }
                match find_pack_index(&self.packs, &self.owning_pack_name_for_file[m].1) {
                    Some(i) => {
                        return Some(&self.packs[i]);
                    },
                    None => {
                        proof {
                            assert(self.has_pack(self.spec_owning()[m as int].1@));
                            assert(false);
                        }
                        return None;
                    },
                }
            }
            m = m + 1;
        }
        None
    }

    /// The pack named `pack_name`, tolerating one trailing `/` appended to the
    /// name (as shell auto-completion does). An unknown name is an ordinary
    /// "not found" outcome.
    pub fn for_pack(&self, pack_name: &str) -> (r: Result<&Pack, &'static str>)
        requires
            self.wf(),
        ensures
            match r {
                Ok(p) => p@.name == spec_trim_one_trailing_slash(pack_name@) && exists|i: int|
                    0 <= i < self.packs@.len() && self.packs@[i] == *p,
                Err(m) => !self.has_pack(spec_trim_one_trailing_slash(pack_name@)) && m@
                    == "No pack found."@,
            },
    {
        let trimmed = trim_one_trailing_slash(pack_name);
        match find_pack_index(&self.packs, &trimmed) {
            Some(i) => Ok(&self.packs[i]),
            None => Err("No pack found."),
        }
    }

    /// The root pack, named `.`; construction guarantees it exists.
    pub fn root_pack(&self) -> (r: &Pack)
        requires
            self.wf(),
        ensures
            r@.name == root_pack_name(),
            exists|i: int| 0 <= i < self.packs@.len() && self.packs@[i] == *r,
    {
        let dot: String = ".".to_owned();
        proof {
            reveal_strlit(".");
            assert(dot@ =~= root_pack_name());
        }
        match find_pack_index(&self.packs, &dot) {
            Some(i) => &self.packs[i],
            None => {
                proof {
                    assert(false);
                }
                &self.packs[0]
            },
        }
    }
}

/// Trimming one trailing separator makes a name with one appended and the
/// bare name resolve to the same lookup key.
pub proof fn lemma_trailing_slash_same_key(name: Seq<char>)
    requires
        name.len() == 0 || name.last() != '/',
    ensures
        spec_trim_one_trailing_slash(name.push('/')) == name,
        spec_trim_one_trailing_slash(name) == name,
{
    assert(name.push('/').last() == '/');
    assert(name.push('/').drop_last() =~= name);
}

} // verus!
