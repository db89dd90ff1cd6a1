use vstd::prelude::*;

use crate::paths::{
    base_name, dir_part, find_last, last_index_of, lemma_last_index_bounds, lemma_last_index_prefix,
};

verus! {

/// Numbered variants `1..MAX_PROBES` of a taken name are probed before giving up.
pub const MAX_PROBES: u32 = 1000;

pub open spec fn digit_char(d: nat) -> char {
    if d == 0 {
        '0'
    } else if d == 1 {
        '1'
    } else if d == 2 {
        '2'
    } else if d == 3 {
        '3'
    } else if d == 4 {
        '4'
    } else if d == 5 {
        '5'
    } else if d == 6 {
        '6'
    } else if d == 7 {
        '7'
    } else if d == 8 {
        '8'
    } else {
        '9'
    }
}

/// Decimal digits of `n`, most significant first, without leading zeros.
pub open spec fn decimal(n: nat) -> Seq<char>
    decreases n,
{
    if n < 10 {
        seq![digit_char(n)]
    } else {
        decimal(n / 10).push(digit_char(n % 10))
    }
}

/// The part of a file name before its extension (`file` for an empty name).
pub open spec fn stem_of(name: Seq<char>) -> Seq<char> {
    let d = last_index_of(name, '.');
    if name.len() == 0 {
        seq!['f', 'i', 'l', 'e']
    } else if d > 0 {
        name.subrange(0, d)
    } else {
        name
    }
}

/// The extension of a file name: what follows its last dot, unless that dot leads the name.
pub open spec fn ext_of(name: Seq<char>) -> Seq<char> {
    let d = last_index_of(name, '.');
    if d > 0 {
        name.subrange(d + 1, name.len() as int)
    } else {
        Seq::empty()
    }
}

/// The `i`-th numbered variant of `name`: `stem (i).ext`, or `stem (i)` without extension.
pub open spec fn candidate_name(name: Seq<char>, i: nat) -> Seq<char> {
    let numbered = stem_of(name) + seq![' ', '('] + decimal(i) + seq![')'];
    if ext_of(name).len() == 0 {
        numbered
    } else {
        numbered + seq!['.'] + ext_of(name)
    }
}

/// The first `j` in `i..MAX_PROBES` whose variant of `name` is not taken.
pub open spec fn first_free(name: Seq<char>, taken: Seq<Seq<char>>, i: nat) -> Option<nat>
    decreases MAX_PROBES - i,
{
    if i >= MAX_PROBES {
        None
    } else if !taken.contains(candidate_name(name, i)) {
        Some(i)
    } else {
        first_free(name, taken, i + 1)
    }
}

/// Where a file meant for `target` goes when the names in `taken` already exist in its directory:
/// `target` itself when its name is free, else the first free numbered variant,
/// else (every variant taken) `target` again.
pub open spec fn allocated_path(target: Seq<char>, taken: Seq<Seq<char>>) -> Seq<char> {
    let name = base_name(target);
    if !taken.contains(name) {
        target
    } else {
        match first_free(name, taken, 1) {
            Some(i) => dir_part(target) + candidate_name(name, i),
            None => target,
        }
    }
}

fn digit_str(d: u64) -> (r: &'static str)
    requires
        d < 10,
    ensures
        r@ == seq![digit_char(d as nat)],
{
    proof {
        reveal_strlit("0");
        reveal_strlit("1");
        reveal_strlit("2");
        reveal_strlit("3");
        reveal_strlit("4");
        reveal_strlit("5");
        reveal_strlit("6");
        reveal_strlit("7");
        reveal_strlit("8");
        reveal_strlit("9");
    }
    let r = match d {
        0 => "0",
        1 => "1",
        2 => "2",
        3 => "3",
        4 => "4",
        5 => "5",
        6 => "6",
        7 => "7",
        8 => "8",
        _ => "9",
    };
    assert(r@ =~= seq![digit_char(d as nat)]);
    r
}

/// Decimal text of `n`.
pub fn decimal_text(n: u64) -> (r: String)
    ensures
        r@ == decimal(n as nat),
    decreases n,
{
    if n < 10 {
        digit_str(n).to_owned()
    } else {
        let mut s = decimal_text(n / 10);
        s.append(digit_str(n % 10));
        s
    }
}

/// Whether `name` occurs in `taken`.
pub fn contains_name(taken: &Vec<String>, name: &String) -> (r: bool)
    ensures
        r == taken.deep_view().contains(name@),
{
    let mut i: usize = 0;
    while i < taken.len()
        invariant
            i <= taken.len(),
            forall|j: int| 0 <= j < i ==> taken.deep_view()[j] != name@,
        decreases taken.len() - i,
    {
        if taken[i] == *name {
            assert(taken.deep_view()[i as int] == name@);
            return true;
        }
        i += 1;
    }
    false
}

fn numbered_name(stem: &str, ext: &str, i: u32) -> (r: String)
    ensures
        r@ == (if ext@.len() == 0 {
            stem@ + seq![' ', '('] + decimal(i as nat) + seq![')']
        } else {
            stem@ + seq![' ', '('] + decimal(i as nat) + seq![')'] + seq!['.'] + ext@
        }),
{
    proof {
        reveal_strlit(" (");
        reveal_strlit(")");
        reveal_strlit(".");
    }
    let mut r = stem.to_owned();
    r.append(" (");
    let d = decimal_text(i as u64);
    r.append(d.as_str());
    r.append(")");
    if ext.unicode_len() > 0 {
        r.append(".");
        r.append(ext);
    }
    r
}

/// A path for a new file meant for `target` that collides with none of the `taken` names of
/// its directory: see [`allocated_path`].
pub fn unique_path(target: &str, taken: &Vec<String>) -> (r: String)
    ensures
        r@ == allocated_path(target@, taken.deep_view()),
{
    let n = target.unicode_len();
    proof {
        lemma_last_index_bounds(target@, '/');
    }
    let start: usize = match find_last(target, '/') {
        Some(k) => k + 1,
        None => 0,
    };
    let dir = target.substring_char(0, start);
    let name = target.substring_char(start, n).to_owned();
    assert(name@ == base_name(target@));
    assert(dir@ == dir_part(target@));
    if !contains_name(taken, &name) {
        return target.to_owned();
    }
    let m = name.unicode_len();
    proof {
        lemma_last_index_bounds(name@, '.');
        reveal_strlit("file");
        reveal_strlit("");
    }
    let (stem, ext): (&str, &str) = match find_last(name.as_str(), '.') {
        Some(k) if k > 0 => (name.substring_char(0, k), name.substring_char(k + 1, m)),
        _ => {
            if m == 0 {
                ("file", "")
            } else {
                (name.as_str(), "")
            }
        },
    };
    assert(stem@ == stem_of(name@));
    assert(ext@ =~= ext_of(name@));
    let mut i: u32 = 1;
    while i < MAX_PROBES
        invariant
            1 <= i <= MAX_PROBES,
            name@ == base_name(target@),
            dir@ == dir_part(target@),
            taken.deep_view().contains(name@),
            stem@ == stem_of(name@),
            ext@ == ext_of(name@),
            first_free(name@, taken.deep_view(), 1) == first_free(name@, taken.deep_view(), i as nat),
        decreases MAX_PROBES - i,
    {
        let cand = numbered_name(stem, ext, i);
        assert(cand@ == candidate_name(name@, i as nat));
        if !contains_name(taken, &cand) {
            assert(first_free(name@, taken.deep_view(), i as nat) == Some(i as nat));
            let mut r = dir.to_owned();
            r.append(cand.as_str());
            return r;
        }
        i += 1;
    }
    target.to_owned()
}

/// The paths handed out by `n` allocations in a row for `target`, each one made after the
/// files of all earlier ones were created in a directory that held nothing else.
pub open spec fn repeated_allocations(target: Seq<char>, n: nat) -> Seq<Seq<char>>
    decreases n,
{
    if n == 0 {
        Seq::empty()
    } else {
        let prev = repeated_allocations(target, (n - 1) as nat);
        prev.push(allocated_path(target, prev.map_values(|p: Seq<char>| base_name(p))))
    }
}

/// The path for `target` numbered `k`, where number 0 is `target` itself.
pub open spec fn variant(target: Seq<char>, k: nat) -> Seq<char> {
    if k == 0 {
        target
    } else {
        dir_part(target) + candidate_name(base_name(target), k)
    }
}

pub open spec fn no_slash(s: Seq<char>) -> bool {
    forall|j: int| 0 <= j < s.len() ==> s[j] != '/'
}

proof fn lemma_first_free(name: Seq<char>, taken: Seq<Seq<char>>, i: nat)
    ensures
        first_free(name, taken, i) matches Some(j) ==> i <= j < MAX_PROBES && !taken.contains(
            candidate_name(name, j),
        ),
    decreases MAX_PROBES - i,
{
    if i < MAX_PROBES && taken.contains(candidate_name(name, i)) {
        lemma_first_free(name, taken, i + 1);
    }
}

proof fn lemma_decimal_shape(n: nat)
    ensures
        n < 10 ==> decimal(n).len() == 1,
        n >= 10 ==> decimal(n).len() >= 2,
        no_slash(decimal(n)),
    decreases n,
{
    if n >= 10 {
        lemma_decimal_shape(n / 10);
        assert forall|j: int| 0 <= j < decimal(n).len() implies decimal(n)[j] != '/' by {
            if j < decimal(n).len() - 1 {
                assert(decimal(n)[j] == decimal(n / 10)[j]);
            }
        }
    }
}

proof fn lemma_decimal_injective(a: nat, b: nat)
    requires
        decimal(a) == decimal(b),
    ensures
        a == b,
    decreases a,
{
    lemma_decimal_shape(a);
    lemma_decimal_shape(b);
    if a >= 10 && b >= 10 {
        assert(decimal(a).drop_last() =~= decimal(a / 10));
        assert(decimal(b).drop_last() =~= decimal(b / 10));
        lemma_decimal_injective(a / 10, b / 10);
        assert(decimal(a).last() == digit_char(a % 10));
        assert(decimal(b).last() == digit_char(b % 10));
        assert(a % 10 == b % 10);
        assert(a / 10 == b / 10);
        assert(a == (a / 10) * 10 + a % 10) by (nonlinear_arith);
        assert(b == (b / 10) * 10 + b % 10) by (nonlinear_arith);
    } else if a < 10 && b < 10 {
        assert(decimal(a) == seq![digit_char(a)]);
        assert(decimal(b) == seq![digit_char(b)]);
        assert(seq![digit_char(a)][0] == digit_char(a));
        assert(seq![digit_char(b)][0] == digit_char(b));
        assert(digit_char(a) == digit_char(b));
    } else {
        assert(decimal(a).len() != decimal(b).len());
    }
}

/// Numbered variants hold no separator, differ from the name and from each other, and are at
/// least four characters long.
pub proof fn lemma_candidate_facts(name: Seq<char>, i: nat, k: nat)
    requires
        no_slash(name),
        i >= 1,
        k >= 1,
    ensures
        no_slash(candidate_name(name, i)),
        candidate_name(name, i).len() >= 4,
        candidate_name(name, i) != name,
        candidate_name(name, i) == candidate_name(name, k) ==> i == k,
{
    lemma_last_index_bounds(name, '.');
    lemma_decimal_shape(i);
    lemma_decimal_shape(k);
    let stem = stem_of(name);
    let ext = ext_of(name);
    let ci = candidate_name(name, i);
    let ck = candidate_name(name, k);
    assert(no_slash(stem)) by {
        reveal_strlit("file");
        if name.len() != 0 && last_index_of(name, '.') > 0 {
            assert forall|j: int| 0 <= j < stem.len() implies stem[j] != '/' by {
                assert(stem[j] == name[j]);
            }
        }
    }
    assert(no_slash(ext)) by {
        if last_index_of(name, '.') > 0 {
            assert forall|j: int| 0 <= j < ext.len() implies ext[j] != '/' by {
                assert(ext[j] == name[j + last_index_of(name, '.') + 1]);
            }
        }
    }
    let s = stem.len() as int;
    assert(ci.len() > name.len());
    assert(forall|j: int| 0 <= j < ci.len() ==> ci[j] != '/') by {
        assert forall|j: int| 0 <= j < ci.len() implies ci[j] != '/' by {
            if j < s {
                assert(ci[j] == stem[j]);
            } else if j >= s + 2 && j < s + 2 + decimal(i).len() {
                assert(ci[j] == decimal(i)[j - s - 2]);
            } else if j >= s + 4 + decimal(i).len() {
                assert(ci[j] == ext[j - s - 4 - decimal(i).len()]);
            }
        }
    }
    if ci == ck {
        assert(decimal(i).len() == decimal(k).len());
        assert(decimal(i) =~= ci.subrange(s + 2, s + 2 + decimal(i).len()));
        assert(decimal(k) =~= ck.subrange(s + 2, s + 2 + decimal(k).len()));
        lemma_decimal_injective(i, k);
    }
}

proof fn lemma_dir_part_join(target: Seq<char>, c: Seq<char>)
    requires
        no_slash(c),
    ensures
        base_name(dir_part(target) + c) == c,
        dir_part(target) + base_name(target) == target,
{
    lemma_last_index_bounds(target, '/');
    let l = last_index_of(target, '/');
    let d = dir_part(target);
    lemma_last_index_prefix(d, c, '/');
    if l >= 0 {
        assert(d.last() == '/');
    } else {
        assert(d.len() == 0);
    }
    assert(last_index_of(d, '/') == l);
    assert((d + c).subrange(l + 1, (d + c).len() as int) =~= c);
    assert(d + base_name(target) =~= target);
}

/// In a directory that holds only the files created for earlier allocations, the `k`-th of up
/// to `MAX_PROBES` allocations in a row for `target` hands out `target` itself for `k == 0` and
/// its numbered variant `k` after that.
pub proof fn lemma_repeated_allocations(target: Seq<char>, n: nat)
    requires
        n <= MAX_PROBES,
    ensures
        repeated_allocations(target, n).len() == n,
        forall|k: int| 0 <= k < n ==> #[trigger] repeated_allocations(target, n)[k] == variant(target, k as nat),
    decreases n,
{
    if n > 0 {
        let m = (n - 1) as nat;
        lemma_repeated_allocations(target, m);
        let prev = repeated_allocations(target, m);
        let taken = prev.map_values(|p: Seq<char>| base_name(p));
        let name = base_name(target);
        lemma_last_index_bounds(target, '/');
        assert(no_slash(name)) by {
            assert forall|j: int| 0 <= j < name.len() implies name[j] != '/' by {
                assert(name[j] == target[j + last_index_of(target, '/') + 1]);
            }
        }
        assert forall|k: int| 0 <= k < m implies #[trigger] taken[k] == (if k == 0 {
            name
        } else {
            candidate_name(name, k as nat)
        }) by {
            assert(prev[k] == variant(target, k as nat));
            if k > 0 {
                lemma_candidate_facts(name, k as nat, k as nat);
                lemma_dir_part_join(target, candidate_name(name, k as nat));
            }
        }
        if m == 0 {
            assert(!taken.contains(name));
        } else {
            assert(taken[0] == name);
            assert forall|j: nat| 1 <= j < m implies taken.contains(#[trigger] candidate_name(name, j)) by {
                assert(taken[j as int] == candidate_name(name, j));
            }
            assert(!taken.contains(candidate_name(name, m))) by {
                if taken.contains(candidate_name(name, m)) {
                    let k = choose|k: int| 0 <= k < taken.len() && taken[k] == candidate_name(name, m);
                    lemma_candidate_facts(name, m, m);
                    if k > 0 {
                        lemma_candidate_facts(name, m, k as nat);
                    }
                }
            }
            lemma_first_free_skip(name, taken, 1, m);
        }
    }
}

proof fn lemma_first_free_skip(name: Seq<char>, taken: Seq<Seq<char>>, i: nat, m: nat)
    requires
        1 <= i <= m < MAX_PROBES,
        forall|j: nat| i <= j < m ==> taken.contains(#[trigger] candidate_name(name, j)),
        !taken.contains(candidate_name(name, m)),
    ensures
        first_free(name, taken, i) == Some(m),
    decreases m - i,
{
    if i < m {
        assert(taken.contains(candidate_name(name, i)));
        lemma_first_free_skip(name, taken, i + 1, m);
    }
}

/// Allocating for a name that already exists in the directory never hands back the existing
/// path, nor any other taken name, as long as some numbered variant is still free.
pub proof fn lemma_allocation_avoids_taken(target: Seq<char>, taken: Seq<Seq<char>>)
    requires
        taken.contains(base_name(target)),
        first_free(base_name(target), taken, 1) is Some,
    ensures
        allocated_path(target, taken) != target,
        !taken.contains(base_name(allocated_path(target, taken))),
{
    let name = base_name(target);
    lemma_first_free(name, taken, 1);
    let i = first_free(name, taken, 1)->0;
    lemma_last_index_bounds(target, '/');
    assert(no_slash(name)) by {
        assert forall|j: int| 0 <= j < name.len() implies name[j] != '/' by {
            assert(name[j] == target[j + last_index_of(target, '/') + 1]);
        }
    }
    lemma_candidate_facts(name, i, i);
    lemma_dir_part_join(target, candidate_name(name, i));
    if allocated_path(target, taken) == target {
        let d = dir_part(target);
        assert(d + candidate_name(name, i) == d + name);
        assert(candidate_name(name, i) =~= (d + candidate_name(name, i)).subrange(d.len() as int, (d + candidate_name(name, i)).len() as int));
        assert(name =~= (d + name).subrange(d.len() as int, (d + name).len() as int));
    }
}

/// Up to `MAX_PROBES` allocations in a row for one target, in a directory that holds only the
/// files created for the earlier ones, hand out pairwise distinct paths.
pub proof fn lemma_repeated_allocations_distinct(target: Seq<char>, n: nat)
    requires
        n <= MAX_PROBES,
    ensures
        repeated_allocations(target, n).len() == n,
        forall|a: int, b: int|
            0 <= a < b < n ==> repeated_allocations(target, n)[a] != repeated_allocations(target, n)[b],
{
    lemma_repeated_allocations(target, n);
    let name = base_name(target);
    lemma_last_index_bounds(target, '/');
    assert(no_slash(name)) by {
        assert forall|j: int| 0 <= j < name.len() implies name[j] != '/' by {
            assert(name[j] == target[j + last_index_of(target, '/') + 1]);
        }
    }
    assert forall|a: int, b: int| 0 <= a < b < n implies repeated_allocations(target, n)[a]
        != repeated_allocations(target, n)[b] by {
        let r = repeated_allocations(target, n);
        assert(r[a] == variant(target, a as nat));
        assert(r[b] == variant(target, b as nat));
        lemma_candidate_facts(name, b as nat, b as nat);
        lemma_dir_part_join(target, candidate_name(name, b as nat));
        if a > 0 {
            lemma_candidate_facts(name, a as nat, b as nat);
            lemma_dir_part_join(target, candidate_name(name, a as nat));
        }
        if r[a] == r[b] {
            assert(base_name(r[a]) == base_name(r[b]));
        }
    }
}

} // verus!
