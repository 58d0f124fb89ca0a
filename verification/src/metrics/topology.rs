use vstd::prelude::*;
use crate::snapshot::ClusterKind;
use crate::metrics::zones::{ascii_upper, cluster_letter_kind, letter_kind_spec};
use crate::text::{has_prefix, parse_unsigned, parse_unsigned_exec, starts_with, push_char};

verus! {

/// The `cluster-type` letters of all found cores, upper-cased, in order.
pub open spec fn upper_letters(found: Seq<(usize, char)>) -> Seq<char> {
    found.map_values(|e: (usize, char)| ascii_upper(e.1))
}

/// `slots` grown with empty entries to reach `index`, then `index` set to `k`.
pub open spec fn place(slots: Seq<Option<ClusterKind>>, index: nat, k: ClusterKind) -> Seq<Option<ClusterKind>> {
    let grown = if index >= slots.len() {
        slots + Seq::new((index + 1 - slots.len()) as nat, |_i: int| None::<ClusterKind>)
    } else {
        slots
    };
    grown.update(index as int, Some(k))
}

/// Per-logical-CPU kinds after the first `n` found cores, or `None` once a
/// letter is not understood.
pub open spec fn fill_slots(found: Seq<(usize, char)>, letters: Seq<char>, has_super_level: bool, n: int) -> Option<Seq<Option<ClusterKind>>>
    decreases n,
{
    if n <= 0 {
        Some(Seq::empty())
    } else {
        match fill_slots(found, letters, has_super_level, n - 1) {
            None => None,
            Some(slots) => match letter_kind_spec(found[n - 1].1, letters, has_super_level) {
                None => None,
                Some(k) => Some(place(slots, found[n - 1].0 as nat, k)),
            },
        }
    }
}

/// Kinds of all logical CPUs in order, or nothing when a letter is unknown or
/// some CPU index between 0 and the largest one was never seen.
pub open spec fn assemble_spec(found: Seq<(usize, char)>, has_super_level: bool) -> Seq<ClusterKind> {
    match fill_slots(found, upper_letters(found), has_super_level, found.len() as int) {
        Some(slots) => if slots.len() > 0 && (forall|i: int| 0 <= i < slots.len() ==> #[trigger] slots[i] is Some) {
            slots.map_values(|o: Option<ClusterKind>| o->0)
        } else {
            Seq::empty()
        },
        None => Seq::empty(),
    }
}

fn upper_char(c: char) -> (r: char)
    ensures
        r == ascii_upper(c),
{
    if 'a' <= c && c <= 'z' {
        ((c as u32 - 32) as u8) as char
    } else {
        c
    }
}

/// Orders (logical CPU, cluster letter) pairs into one kind per CPU.
pub fn assemble(found: &Vec<(usize, char)>, has_super_level: bool) -> (r: Vec<ClusterKind>)
    ensures
        r@ == assemble_spec(found@, has_super_level),
{
    let n = found.len();
    let mut letters = String::new();
    let mut i: usize = 0;
    while i < n
        invariant
            n == found@.len(),
            i <= n,
            letters@ == upper_letters(found@.subrange(0, i as int)),
        decreases n - i,
    {
        push_char(&mut letters, upper_char(found[i].1));
        proof {
            assert(upper_letters(found@.subrange(0, i as int + 1)) =~= upper_letters(
                found@.subrange(0, i as int),
            ).push(ascii_upper(found@[i as int].1)));
        }
        i = i + 1;
    }
    assert(found@.subrange(0, n as int) =~= found@);
    let ghost letters_v = upper_letters(found@);
    let mut slots: Vec<Option<ClusterKind>> = Vec::new();
    let mut j: usize = 0;
    while j < n
        invariant
            n == found@.len(),
            j <= n,
            letters@ == letters_v,
            letters_v == upper_letters(found@),
            fill_slots(found@, letters_v, has_super_level, j as int) == Some(slots@),
        decreases n - j,
    {
        let (index, letter) = found[j];
        let kind = match cluster_letter_kind(letter, letters.as_str(), has_super_level) {
            Some(k) => k,
            None => {
                assert(fill_slots(found@, letters_v, has_super_level, n as int) is None) by {
                    lemma_fill_stays_none(found@, letters_v, has_super_level, j as int + 1, n as int);
                }
                return Vec::new();
            },
        };
        let ghost before = slots@;
        if index >= slots.len() {
            while slots.len() <= index
                invariant
                    before.len() <= slots@.len() <= index + 1,
                    slots@ == before + Seq::new((slots@.len() - before.len()) as nat, |_i: int| None::<ClusterKind>),
                decreases index + 1 - slots@.len(),
            {
                let ghost s0 = slots@;
                slots.push(None);
                assert(slots@ =~= before + Seq::new((slots@.len() - before.len()) as nat, |_i: int| None::<ClusterKind>));
            }
        }
        slots.set(index, Some(kind));
        assert(slots@ =~= place(before, index as nat, kind));
        j = j + 1;
    }
    let m = slots.len();
    let mut out: Vec<ClusterKind> = Vec::new();
    let mut k: usize = 0;
    while k < m
        invariant
            m == slots@.len(),
            k <= m,
            n == found@.len(),
            fill_slots(found@, upper_letters(found@), has_super_level, n as int) == Some(slots@),
            forall|t: int| 0 <= t < k ==> #[trigger] slots@[t] is Some,
            out@ == slots@.subrange(0, k as int).map_values(|o: Option<ClusterKind>| o->0),
        decreases m - k,
    {
        match slots[k] {
            Some(kind) => {
                out.push(kind);
                assert(slots@.subrange(0, k as int + 1).map_values(|o: Option<ClusterKind>| o->0)
                    =~= slots@.subrange(0, k as int).map_values(|o: Option<ClusterKind>| o->0).push(kind));
            },
            None => {
                assert(!(forall|t: int| 0 <= t < slots@.len() ==> #[trigger] slots@[t] is Some));
                return Vec::new();
            },
        }
        k = k + 1;
    }
    if m == 0 {
        return Vec::new();
    }
    assert(slots@.subrange(0, m as int) =~= slots@);
    out
}

proof fn lemma_fill_stays_none(found: Seq<(usize, char)>, letters: Seq<char>, h: bool, j: int, n: int)
    requires
        1 <= j <= n,
        fill_slots(found, letters, h, j) is None,
    ensures
        fill_slots(found, letters, h, n) is None,
    decreases n - j,
{
    if j < n {
        lemma_fill_stays_none(found, letters, h, j + 1, n);
    }
}

/// Logical CPU number from a registry name such as `cpu7`.
pub open spec fn cpu_index_spec(name: Seq<char>) -> Option<nat> {
    if has_prefix(name, "cpu"@) {
        parse_unsigned(name.subrange(3, name.len() as int), usize::MAX as nat)
    } else {
        None
    }
}

/// Parses the number after a leading `cpu`.
pub fn parse_cpu_index(name: &str) -> (r: Option<usize>)
    ensures
        r matches Some(v) ==> cpu_index_spec(name@) == Some(v as nat),
        r is None ==> cpu_index_spec(name@) is None,
{
    proof {
        reveal_strlit("cpu");
    }
    if !starts_with(name, "cpu") {
        return None;
    }
    let rest = name.substring_char(3, name.unicode_len());
    match parse_unsigned_exec(rest, usize::MAX as u64) {
        Some(v) => Some(v as usize),
        None => None,
    }
}

} // verus!
