//! The member registry: lookups, the weight sum and settlement of clocks.
use vstd::prelude::*;
use vstd::string::StrSliceExecFns;

use crate::error::ContractError;
use crate::state::{entries, unique_addrs, Entry, Member, ShareholderInfo};


verus! {

/// Strict lexicographic order of addresses, char by char. It is the order
/// of `str`'s `Ord`, since UTF-8 keeps the order of code points.
pub open spec fn addr_less(a: Seq<char>, b: Seq<char>) -> bool
    decreases a.len(),
{
    if b.len() == 0 {
        false
    } else if a.len() == 0 {
        true
    } else if a[0] != b[0] {
        a[0] < b[0]
    } else {
        addr_less(a.drop_first(), b.drop_first())
    }
}

/// The registry lists its addresses in strictly ascending order.
pub open spec fn sorted_addrs(m: Seq<Entry>) -> bool {
    forall|i: int, j: int| 0 <= i < j < m.len() ==> addr_less(#[trigger] m[i].0, #[trigger] m[j].0)
}

/// `a` goes at position `p`: after every smaller address, before every
/// larger one.
pub open spec fn fits_at(m: Seq<Entry>, a: Seq<char>, p: int) -> bool {
    &&& 0 <= p <= m.len()
    &&& forall|i: int| 0 <= i < p ==> addr_less(#[trigger] m[i].0, a)
    &&& forall|i: int| p <= i < m.len() ==> addr_less(a, #[trigger] m[i].0)
}

pub open spec fn insert_pos(m: Seq<Entry>, a: Seq<char>) -> int {
    choose|p: int| fits_at(m, a, p)
}

/// `a` added with `info` at its place in the order.
pub open spec fn insert_sorted(m: Seq<Entry>, a: Seq<char>, info: ShareholderInfo) -> Seq<Entry> {
    m.insert(insert_pos(m, a), (a, info))
}

pub proof fn lemma_less_irreflexive(a: Seq<char>)
    ensures
        !addr_less(a, a),
    decreases a.len(),
{
    if a.len() > 0 {
        lemma_less_irreflexive(a.drop_first());
    }
}

pub proof fn lemma_less_transitive(a: Seq<char>, b: Seq<char>, c: Seq<char>)
    requires
        addr_less(a, b),
        addr_less(b, c),
    ensures
        addr_less(a, c),
    decreases a.len(),
{
    if a.len() > 0 && a[0] == b[0] && b[0] == c[0] {
        lemma_less_transitive(a.drop_first(), b.drop_first(), c.drop_first());
    }
}

pub proof fn lemma_less_total(a: Seq<char>, b: Seq<char>)
    requires
        a != b,
    ensures
        addr_less(a, b) || addr_less(b, a),
    decreases a.len(),
{
    if a.len() == 0 && b.len() == 0 {
        assert(a =~= b);
    } else if a.len() > 0 && b.len() > 0 && a[0] == b[0] {
        if a.drop_first() == b.drop_first() {
            assert(a.drop_first().len() == b.drop_first().len());
            assert(a.len() == b.len());
            assert forall|i: int| 0 <= i < a.len() implies a[i] == b[i] by {
                if i > 0 {
                    assert(a[i] == a.drop_first()[i - 1]);
                    assert(b[i] == b.drop_first()[i - 1]);
                }
            }
            assert(a =~= b);
        } else {
            lemma_less_total(a.drop_first(), b.drop_first());
        }
    }
}

/// An ascending registry holds each address once.
pub proof fn lemma_sorted_unique(m: Seq<Entry>)
    requires
        sorted_addrs(m),
    ensures
        unique_addrs(m),
{
    assert forall|i: int, j: int|
        0 <= i < m.len() && 0 <= j < m.len() && #[trigger] m[i].0 == #[trigger] m[j].0 implies i
        == j by {
        lemma_less_irreflexive(m[i].0);
    }
}

/// A registry with the same addresses, place by place, is as ascending.
pub proof fn lemma_same_addrs_sorted(m1: Seq<Entry>, m2: Seq<Entry>)
    requires
        sorted_addrs(m1),
        m1.len() == m2.len(),
        forall|i: int| 0 <= i < m1.len() ==> (#[trigger] m1[i]).0 == m2[i].0,
    ensures
        sorted_addrs(m2),
        unique_addrs(m2),
{
    assert forall|i: int, j: int| 0 <= i < j < m2.len() implies addr_less(
        #[trigger] m2[i].0,
        #[trigger] m2[j].0,
    ) by {
        assert(m1[i].0 == m2[i].0 && m1[j].0 == m2[j].0);
    }
    lemma_sorted_unique(m2);
}

pub proof fn lemma_remove_sorted(m: Seq<Entry>, k: int)
    requires
        sorted_addrs(m),
        0 <= k < m.len(),
    ensures
        sorted_addrs(m.remove(k)),
        unique_addrs(m.remove(k)),
{
    let r = m.remove(k);
    assert forall|i: int, j: int| 0 <= i < j < r.len() implies addr_less(
        #[trigger] r[i].0,
        #[trigger] r[j].0,
    ) by {
        let i2 = if i < k { i } else { i + 1 };
        let j2 = if j < k { j } else { j + 1 };
        assert(r[i] == m[i2] && r[j] == m[j2]);
    }
    lemma_sorted_unique(r);
}

/// Where an absent address fits, there is exactly one place.
pub proof fn lemma_insert_pos(m: Seq<Entry>, a: Seq<char>, p: int)
    requires
        sorted_addrs(m),
        fits_at(m, a, p),
    ensures
        insert_pos(m, a) == p,
        sorted_addrs(insert_sorted(m, a, ShareholderInfo { last_withdraw_timestamp: 0, weight: 0 })),
        forall|info: ShareholderInfo| sorted_addrs(#[trigger] insert_sorted(m, a, info)),
{
    let q = insert_pos(m, a);
    assert(fits_at(m, a, q));
    if q < p {
        assert(addr_less(m[q].0, a));
        lemma_less_transitive(a, m[q].0, a);
        lemma_less_irreflexive(a);
    } else if p < q {
        assert(addr_less(m[p].0, a));
        lemma_less_transitive(a, m[p].0, a);
        lemma_less_irreflexive(a);
    }
    assert forall|info: ShareholderInfo| sorted_addrs(#[trigger] insert_sorted(m, a, info)) by {
        let r = insert_sorted(m, a, info);
        assert forall|i: int, j: int| 0 <= i < j < r.len() implies addr_less(
            #[trigger] r[i].0,
            #[trigger] r[j].0,
        ) by {
            if j < p {
                assert(r[i] == m[i] && r[j] == m[j]);
            } else if j == p {
                assert(r[i] == m[i]);
            } else if i < p {
                assert(r[i] == m[i] && r[j] == m[j - 1]);
                lemma_less_transitive(m[i].0, a, m[j - 1].0);
            } else if i == p {
                assert(r[j] == m[j - 1]);
            } else {
                assert(r[i] == m[i - 1] && r[j] == m[j - 1]);
            }
        }
    }
}

/// An absent address has a place in an ascending registry.
pub proof fn lemma_insert_pos_exists(m: Seq<Entry>, a: Seq<char>)
    requires
        sorted_addrs(m),
        !has_addr(m, a),
    ensures
        fits_at(m, a, insert_pos(m, a)),
        sorted_addrs(insert_sorted(m, a, ShareholderInfo { last_withdraw_timestamp: 0, weight: 0 })),
        forall|info: ShareholderInfo| sorted_addrs(#[trigger] insert_sorted(m, a, info)),
    decreases m.len(),
{
    if m.len() == 0 {
        lemma_insert_pos(m, a, 0);
    } else {
        let n = m.len() - 1;
        let d = m.drop_last();
        assert(sorted_addrs(d)) by {
            assert forall|i: int, j: int| 0 <= i < j < d.len() implies addr_less(
                #[trigger] d[i].0,
                #[trigger] d[j].0,
            ) by {
                assert(d[i] == m[i] && d[j] == m[j]);
            }
        }
        assert(!has_addr(d, a)) by {
            if has_addr(d, a) {
                let i = choose|i: int| 0 <= i < d.len() && #[trigger] d[i].0 == a;
                assert(m[i].0 == a);
            }
        }
        lemma_insert_pos_exists(d, a);
        let p = insert_pos(d, a);
        assert(m[n].0 != a);
        lemma_less_total(m[n].0, a);
        if addr_less(m[n].0, a) {
            assert forall|i: int| 0 <= i < n + 1 implies addr_less(#[trigger] m[i].0, a) by {
                if i < n {
                    lemma_less_transitive(m[i].0, m[n].0, a);
                }
            }
            lemma_insert_pos(m, a, n + 1);
        } else {
            assert forall|i: int| 0 <= i < p implies addr_less(#[trigger] m[i].0, a) by {
                assert(m[i] == d[i]);
            }
            assert forall|i: int| p <= i < m.len() implies addr_less(a, #[trigger] m[i].0) by {
                if i < n {
                    assert(m[i] == d[i]);
                }
            }
            lemma_insert_pos(m, a, p);
        }
    }
}

/// Adding one member adds exactly its weight to the sum.
pub proof fn lemma_insert_total(m: Seq<Entry>, p: int, e: Entry)
    requires
        0 <= p <= m.len(),
    ensures
        weight_total(m.insert(p, e)) == weight_total(m) + e.1.weight,
{
    lemma_remove_total(m.insert(p, e), p);
    assert(m.insert(p, e).remove(p) =~= m);
}

/// Whether `a` comes strictly before `b`; see [`addr_less`].
pub fn addr_lt(a: &String, b: &String) -> (r: bool)
    ensures
        r == addr_less(a@, b@),
{
    let sa = a.as_str();
    let sb = b.as_str();
    let la = sa.unicode_len();
    let lb = sb.unicode_len();
    let mut i: usize = 0;
    proof {
        assert(a@.subrange(0, la as int) =~= a@);
        assert(b@.subrange(0, lb as int) =~= b@);
    }
    while i < la && i < lb
        invariant
            i <= la,
            i <= lb,
            la == a@.len(),
            lb == b@.len(),
            sa@ == a@,
            sb@ == b@,
            addr_less(a@, b@) == addr_less(a@.subrange(i as int, la as int), b@.subrange(i as int, lb as int)),
        decreases la - i,
    {
        let ca = sa.get_char(i);
        let cb = sb.get_char(i);
        let ghost x = a@.subrange(i as int, la as int);
        let ghost y = b@.subrange(i as int, lb as int);
        assert(x[0] == ca && y[0] == cb);
        if ca != cb {
            return ca < cb;
        }
        assert(x.drop_first() =~= a@.subrange(i + 1, la as int));
        assert(y.drop_first() =~= b@.subrange(i + 1, lb as int));
        i += 1;
    }
    i < lb
}

pub open spec fn has_addr(m: Seq<Entry>, a: Seq<char>) -> bool {
    exists|i: int| 0 <= i < m.len() && #[trigger] m[i].0 == a
}

/// Where `a` stands in the registry, or -1.
pub open spec fn index_of(m: Seq<Entry>, a: Seq<char>) -> int {
    if has_addr(m, a) {
        choose|i: int| 0 <= i < m.len() && #[trigger] m[i].0 == a
    } else {
        -1
    }
}

/// The sum of all weights.
pub open spec fn weight_total(m: Seq<Entry>) -> int
    decreases m.len(),
{
    if m.len() == 0 {
        0
    } else {
        weight_total(m.drop_last()) + m.last().1.weight
    }
}

/// Every member's clock set to `to`, weights kept.
pub open spec fn settle_all(m: Seq<Entry>, to: u64) -> Seq<Entry> {
    m.map_values(|e: Entry| (e.0, ShareholderInfo { last_withdraw_timestamp: to, weight: e.1.weight }))
}

/// `a`'s clock set to `to`.
pub open spec fn settle_one(m: Seq<Entry>, a: Seq<char>, to: u64) -> Seq<Entry> {
    let i = index_of(m, a);
    m.update(i, (a, ShareholderInfo { last_withdraw_timestamp: to, weight: m[i].1.weight }))
}

/// `a` stored with `info`: replaced in place if present, else added at
/// its place in the order.
pub open spec fn put_entry(m: Seq<Entry>, a: Seq<char>, info: ShareholderInfo) -> Seq<Entry> {
    if has_addr(m, a) {
        m.update(index_of(m, a), (a, info))
    } else {
        insert_sorted(m, a, info)
    }
}

pub proof fn lemma_index_of_unique(m: Seq<Entry>, a: Seq<char>, i: int)
    requires
        unique_addrs(m),
        0 <= i < m.len(),
        m[i].0 == a,
    ensures
        index_of(m, a) == i,
        has_addr(m, a),
{
}

pub proof fn lemma_index_of_found(m: Seq<Entry>, a: Seq<char>)
    requires
        has_addr(m, a),
    ensures
        0 <= index_of(m, a) < m.len(),
        m[index_of(m, a)].0 == a,
{
}

/// A prefix weighs no more than the whole.
pub proof fn lemma_prefix_total_le(m: Seq<Entry>, k: int)
    requires
        0 <= k <= m.len(),
    ensures
        weight_total(m.subrange(0, k)) <= weight_total(m),
    decreases m.len(),
{
    if k == m.len() {
        assert(m.subrange(0, k) =~= m);
    } else {
        lemma_prefix_total_le(m.drop_last(), k);
        assert(m.drop_last().subrange(0, k) =~= m.subrange(0, k));
    }
}

/// One member weighs no more than all of them.
pub proof fn lemma_member_weight_le_total(m: Seq<Entry>, i: int)
    requires
        0 <= i < m.len(),
    ensures
        m[i].1.weight <= weight_total(m),
    decreases m.len(),
{
    if i < m.len() - 1 {
        lemma_member_weight_le_total(m.drop_last(), i);
    }
    lemma_total_nonneg(m.drop_last());
}

pub proof fn lemma_total_nonneg(m: Seq<Entry>)
    ensures
        weight_total(m) >= 0,
    decreases m.len(),
{
    if m.len() > 0 {
        lemma_total_nonneg(m.drop_last());
    }
}

/// Settling clocks leaves the weights, and so their sum, as they were.
pub proof fn lemma_settle_all_keeps_total(m: Seq<Entry>, to: u64)
    ensures
        weight_total(settle_all(m, to)) == weight_total(m),
    decreases m.len(),
{
    if m.len() > 0 {
        lemma_settle_all_keeps_total(m.drop_last(), to);
        assert(settle_all(m, to).drop_last() =~= settle_all(m.drop_last(), to));
    }
}

/// Taking one member out takes exactly its weight out of the sum.
pub proof fn lemma_remove_total(m: Seq<Entry>, k: int)
    requires
        0 <= k < m.len(),
    ensures
        weight_total(m.remove(k)) == weight_total(m) - m[k].1.weight,
    decreases m.len(),
{
    if k == m.len() - 1 {
        assert(m.remove(k) =~= m.drop_last());
    } else {
        lemma_remove_total(m.drop_last(), k);
        assert(m.remove(k).drop_last() =~= m.drop_last().remove(k));
    }
}

/// The position of `addr` in the registry, if it is a member.
pub fn find_member(members: &Vec<Member>, addr: &String) -> (r: Option<usize>)
    ensures
        r is None <==> !has_addr(entries(members@), addr@),
        r matches Some(i) ==> i < members@.len() && members@[i as int].addr@ == addr@,
        unique_addrs(entries(members@)) ==> (r matches Some(i) ==> i as int == index_of(
            entries(members@),
            addr@,
        )),
{
    let mut i: usize = 0;
    while i < members.len()
        invariant
            0 <= i <= members@.len(),
            forall|j: int| 0 <= j < i ==> members@[j].addr@ != addr@,
        decreases members@.len() - i,
    {
        if members[i].addr == *addr {
            proof {
                let m = entries(members@);
                assert(m[i as int].0 == addr@);
                if unique_addrs(m) {
                    lemma_index_of_unique(m, addr@, i as int);
                }
            }
            return Some(i);
        }
        i += 1;
    }
    proof {
        let m = entries(members@);
        assert forall|j: int| 0 <= j < m.len() implies m[j].0 != addr@ by {
            assert(m[j] == members@[j]@);
        }
    }
    None
}

/// Where an absent `addr` goes in the ascending registry.
pub fn find_insert_pos(members: &Vec<Member>, addr: &String) -> (r: usize)
    requires
        sorted_addrs(entries(members@)),
        !has_addr(entries(members@), addr@),
    ensures
        r as int == insert_pos(entries(members@), addr@),
        fits_at(entries(members@), addr@, r as int),
        forall|info: ShareholderInfo| sorted_addrs(#[trigger] insert_sorted(entries(members@), addr@, info)),
{
    let ghost m = entries(members@);
    let mut i: usize = 0;
    while i < members.len() && addr_lt(&members[i].addr, addr)
        invariant
            0 <= i <= members@.len(),
            m == entries(members@),
            forall|j: int| 0 <= j < i ==> addr_less(#[trigger] m[j].0, addr@),
        decreases members@.len() - i,
    {
        proof {
            assert(m[i as int] == members@[i as int]@);
        }
        i += 1;
    }
    proof {
        if i < members@.len() {
            let k = i as int;
            assert(m[k] == members@[k]@);
            assert(!addr_less(m[k].0, addr@));
            assert(m[k].0 != addr@);
            lemma_less_total(m[k].0, addr@);
            assert forall|j: int| k <= j < m.len() implies addr_less(addr@, #[trigger] m[j].0) by {
                if j > k {
                    lemma_less_transitive(addr@, m[k].0, m[j].0);
                }
            }
        }
        lemma_insert_pos(m, addr@, i as int);
    }
    i
}

/// Whether `addr` is a member.
pub fn has_member(members: &Vec<Member>, addr: &String) -> (r: bool)
    ensures
        r == has_addr(entries(members@), addr@),
{
    find_member(members, addr).is_some()
}

/// The sum of all weights, failing rather than wrapping when it does not
/// fit in a `u64`.
pub fn calculate_weight_sum(members: &Vec<Member>) -> (r: Result<u64, ContractError>)
    ensures
        r == (if weight_total(entries(members@)) <= u64::MAX {
            Ok::<u64, ContractError>(weight_total(entries(members@)) as u64)
        } else {
            Err::<u64, ContractError>(ContractError::Overflow)
        }),
{
    let ghost m = entries(members@);
    let mut acc: u64 = 0;
    let mut i: usize = 0;
    while i < members.len()
        invariant
            0 <= i <= members@.len(),
            m == entries(members@),
            acc as int == weight_total(m.subrange(0, i as int)),
        decreases members@.len() - i,
    {
        proof {
            assert(m.subrange(0, i + 1).drop_last() =~= m.subrange(0, i as int));
            assert(m[i as int] == members@[i as int]@);
        }
        match acc.checked_add(members[i].info.weight) {
            Some(v) => {
                acc = v;
            },
            None => {
                proof {
                    lemma_prefix_total_le(m, i + 1);
                }
                return Err(ContractError::Overflow);
            },
        }
        i += 1;
    }
    proof {
        assert(m.subrange(0, i as int) =~= m);
    }
    Ok(acc)
}

/// Sets `addr`'s clock to `to`; fails with `NotFound` when it is no member.
pub fn update_last_withdraw_to(members: &mut Vec<Member>, addr: &String, to: u64) -> (r: Result<
    ShareholderInfo,
    ContractError,
>)
    requires
        unique_addrs(entries(old(members)@)),
    ensures
        has_addr(entries(old(members)@), addr@) ==> entries(final(members)@) == settle_one(
            entries(old(members)@),
            addr@,
            to,
        ) && r == Ok::<ShareholderInfo, ContractError>(
            ShareholderInfo {
                last_withdraw_timestamp: to,
                weight: entries(old(members)@)[index_of(entries(old(members)@), addr@)].1.weight,
            },
        ),
        !has_addr(entries(old(members)@), addr@) ==> *final(members) == *old(members) && r == Err::<
            ShareholderInfo,
            ContractError,
        >(ContractError::NotFound),
{
    match find_member(members, addr) {
        None => Err(ContractError::NotFound),
        Some(i) => {
            let ghost before = entries(members@);
            let weight = members[i].info.weight;
            let info = ShareholderInfo { last_withdraw_timestamp: to, weight };
            members[i].info = info;
            proof {
                assert(entries(members@) =~= settle_one(before, addr@, to));
            }
            Ok(info)
        },
    }
}

/// Sets every member's clock to `to`, and returns the updated records in
/// registry order.
pub fn update_all_last_withdraw_to(members: &mut Vec<Member>, to: u64) -> (r: Vec<ShareholderInfo>)
    ensures
        entries(final(members)@) == settle_all(entries(old(members)@), to),
        r@ == settle_all(entries(old(members)@), to).map_values(|e: Entry| e.1),
{
    let ghost before = members@;
    let mut updated: Vec<ShareholderInfo> = Vec::new();
    let mut i: usize = 0;
    while i < members.len()
        invariant
            0 <= i <= members@.len(),
            before.len() == members@.len(),
            updated@.len() == i,
            forall|j: int|
                0 <= j < i ==> (#[trigger] members@[j]).addr == before[j].addr
                    && members@[j].info == (ShareholderInfo {
                    last_withdraw_timestamp: to,
                    weight: before[j].info.weight,
                }) && updated@[j] == members@[j].info,
            forall|j: int| i <= j < members@.len() ==> #[trigger] members@[j] == before[j],
        decreases members@.len() - i,
    {
        members[i].info.last_withdraw_timestamp = to;
        updated.push(members[i].info);
        i += 1;
    }
    proof {
        assert(entries(members@) =~= settle_all(entries(before), to));
        assert(updated@ =~= settle_all(entries(before), to).map_values(|e: Entry| e.1));
    }
    updated
}

} // verus!
