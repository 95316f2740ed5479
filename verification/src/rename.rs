//! Collision-free file names.
//!
//! A file is never written over another one: where the wanted name is
//! taken, a counter in parentheses is put behind the first dot-delimited
//! segment of the name, counting up from 1 until the name is free.

use vstd::prelude::*;
use vstd::string::*;

verus! {

/// The ten decimal digits.
pub open spec fn digits() -> Seq<char> {
    seq!['0', '1', '2', '3', '4', '5', '6', '7', '8', '9']
}

/// The decimal form of a number, without leading zeros.
pub open spec fn decimal(n: nat) -> Seq<char>
    decreases n,
{
    if n < 10 {
        seq![digits()[n as int]]
    } else {
        decimal(n / 10).push(digits()[(n % 10) as int])
    }
}

/// Length of the first dot-delimited segment of a name: the number of
/// characters before its first dot, or its whole length where it has none.
pub open spec fn first_segment_len(name: Seq<char>) -> nat
    decreases name.len(),
{
    if name.len() == 0 || name[0] == '.' {
        0
    } else {
        1 + first_segment_len(name.drop_first())
    }
}

/// The name with the counter put behind its first segment, in the form
/// ` (i)`; the segments that follow stay as they are.
pub open spec fn numbered(name: Seq<char>, i: nat) -> Seq<char> {
    let k = first_segment_len(name) as int;
    name.take(k) + seq![' ', '('] + decimal(i) + seq![')'] + name.skip(k)
}

/// `k` is the length of the first segment of `name` when no dot stands
/// before `k` and the name ends or has a dot there.
proof fn lemma_first_segment_len(name: Seq<char>, k: int)
    requires
        0 <= k <= name.len(),
        forall|j: int| 0 <= j < k ==> name[j] != '.',
        k == name.len() || name[k] == '.',
    ensures
        first_segment_len(name) == k,
    decreases name.len(),
{
    if k > 0 {
        let rest = name.drop_first();
        assert forall|j: int| 0 <= j < k - 1 implies rest[j] != '.' by {
            assert(rest[j] == name[j + 1]);
        }
        lemma_first_segment_len(rest, k - 1);
    }
}

/// The first segment is never longer than the name.
proof fn lemma_first_segment_len_bound(name: Seq<char>)
    ensures
        first_segment_len(name) <= name.len(),
    decreases name.len(),
{
    if name.len() > 0 && name[0] != '.' {
        lemma_first_segment_len_bound(name.drop_first());
    }
}

/// Returns the text of one decimal digit.
fn digit_text(d: u64) -> (text: &'static str)
    requires
        d < 10,
    ensures
        text@ == seq![digits()[d as int]],
{
    proof {
        reveal_strlit("0");
        reveal_strlit("1");
        reveal_strlit("2");
        reveal_strlit("3");
        reveal_strlit("4");
        reveal_strlit("5");
        reveal_strlit("6");
        reveal_strlit("7");
        reveal_strlit("8");
        reveal_strlit("9");
    }
    let text = if d == 0 {
        "0"
    } else if d == 1 {
        "1"
    } else if d == 2 {
        "2"
    } else if d == 3 {
        "3"
    } else if d == 4 {
        "4"
    } else if d == 5 {
        "5"
    } else if d == 6 {
        "6"
    } else if d == 7 {
        "7"
    } else if d == 8 {
        "8"
    } else {
        "9"
    };
    assert(text@ =~= seq![digits()[d as int]]);
    text
}

/// Writes a number in decimal.
pub fn decimal_text(n: u64) -> (text: String)
    ensures
        text@ == decimal(n as nat),
    decreases n,
{
    if n < 10 {
        String::from_str(digit_text(n))
    } else {
        let mut text = decimal_text(n / 10);
        text.append(digit_text(n % 10));
        assert(text@ =~= decimal(n as nat));
        text
    }
}

/// Puts the counter behind the first dot-delimited segment of a file name:
/// `report.txt` with 2 becomes `report (2).txt`, `archive.tar.gz` with 1
/// becomes `archive (1).tar.gz`, and a name without a dot gets the counter
/// at its end.
pub fn numbered_name(file_name: &str, counter: u64) -> (name: String)
    ensures
        name@ == numbered(file_name@, counter as nat),
{
    let len: usize = file_name.unicode_len();
    let mut k: usize = 0;
    let mut dot_seen = false;
    for c in it: file_name.chars()
        invariant
            it.seq() == file_name@,
            len == file_name@.len(),
            k <= it.index(),
            !dot_seen ==> k == it.index(),
            dot_seen ==> k < it.index() && file_name@[k as int] == '.',
            forall|j: int| 0 <= j < k ==> file_name@[j] != '.',
    {
        if !dot_seen {
            if c == '.' {
                dot_seen = true;
            } else {
                k += 1;
            }
        }
    }
    proof {
        lemma_first_segment_len(file_name@, k as int);
        reveal_strlit(" (");
        reveal_strlit(")");
    }
    let mut name = String::from_str(file_name.substring_char(0, k));
    name.append(" (");
    let number = decimal_text(counter);
    name.append(number.as_str());
    name.append(")");
    name.append(file_name.substring_char(k, len));
    assert(name@ =~= numbered(file_name@, counter as nat));
    name
}

/// The names that a listing holds.
pub open spec fn names_of(listing: Seq<String>) -> Set<Seq<char>> {
    listing.map_values(|entry: String| entry@).to_set()
}

/// Every numbered form of `name` with a counter from 1 up to, but not
/// including, `below` is taken.
pub open spec fn all_taken(name: Seq<char>, taken: Set<Seq<char>>, below: nat) -> bool {
    forall|j: nat| 1 <= j < below ==> taken.contains(#[trigger] numbered(name, j))
}

/// `i` is the smallest counter, from 1 on, whose numbered form is free.
pub open spec fn is_first_free(name: Seq<char>, taken: Set<Seq<char>>, i: nat) -> bool {
    &&& 1 <= i
    &&& !taken.contains(numbered(name, i))
    &&& all_taken(name, taken, i)
}

/// The name under which a file is stored: the wanted name where it is
/// free, else its numbered form with the smallest counter that is free.
pub open spec fn resolved(name: Seq<char>, taken: Set<Seq<char>>) -> Seq<char> {
    if !taken.contains(name) {
        name
    } else {
        numbered(name, choose|i: nat| is_first_free(name, taken, i))
    }
}

/// A decimal form has at least one digit.
proof fn lemma_decimal_len(n: nat)
    ensures
        decimal(n).len() >= 1,
    decreases n,
{
    if n >= 10 {
        lemma_decimal_len(n / 10);
    }
}

/// Two digits that are written alike are the same digit.
proof fn lemma_digit_injective(a: nat, b: nat)
    requires
        a < 10,
        b < 10,
        digits()[a as int] == digits()[b as int],
    ensures
        a == b,
{
    let d = digits();
    assert(d[0] == '0' && d[1] == '1' && d[2] == '2' && d[3] == '3' && d[4] == '4');
    assert(d[5] == '5' && d[6] == '6' && d[7] == '7' && d[8] == '8' && d[9] == '9');
}

/// Two numbers with the same decimal form are the same number.
pub proof fn lemma_decimal_injective(a: nat, b: nat)
    requires
        decimal(a) == decimal(b),
    ensures
        a == b,
    decreases a,
{
    lemma_decimal_len(a / 10);
    lemma_decimal_len(b / 10);
    if a < 10 && b < 10 {
        assert(decimal(a)[0] == digits()[a as int]);
        assert(decimal(b)[0] == digits()[b as int]);
        lemma_digit_injective(a, b);
    } else if a >= 10 && b >= 10 {
        let da = decimal(a / 10);
        let db = decimal(b / 10);
        assert(decimal(a).drop_last() =~= da);
        assert(decimal(b).drop_last() =~= db);
        assert(decimal(a).last() == digits()[(a % 10) as int]);
        assert(decimal(b).last() == digits()[(b % 10) as int]);
        lemma_digit_injective(a % 10, b % 10);
        lemma_decimal_injective(a / 10, b / 10);
    } else if a < 10 {
        assert(decimal(a).len() == 1);
        assert(decimal(b).len() == decimal(b / 10).len() + 1);
    } else {
        assert(decimal(b).len() == 1);
        assert(decimal(a).len() == decimal(a / 10).len() + 1);
    }
}

/// Two counters that give the same numbered form of a name are equal.
pub proof fn lemma_numbered_injective(name: Seq<char>, i: nat, j: nat)
    requires
        numbered(name, i) == numbered(name, j),
    ensures
        i == j,
{
    lemma_first_segment_len_bound(name);
    let k = first_segment_len(name) as int;
    let start = k + 2;
    let a = numbered(name, i);
    let b = numbered(name, j);
    assert(a.len() == name.len() + 3 + decimal(i).len());
    assert(b.len() == name.len() + 3 + decimal(j).len());
    let n = decimal(i).len() as int;
    assert(a.subrange(start, start + n) =~= decimal(i));
    assert(b.subrange(start, start + n) =~= decimal(j));
    lemma_decimal_injective(i, j);
}

/// A numbered form is longer than the name it was made from.
proof fn lemma_numbered_is_longer(name: Seq<char>, i: nat)
    ensures
        numbered(name, i).len() > name.len(),
{
    lemma_first_segment_len_bound(name);
    lemma_decimal_len(i);
}

/// The numbered forms of `name` with counters from 1 up to `below`.
spec fn candidates(name: Seq<char>, below: nat) -> Set<Seq<char>> {
    Set::new(|s: Seq<char>| exists|j: nat| 1 <= j < below && s == numbered(name, j))
}

/// There are as many numbered forms as counters.
proof fn lemma_candidates_len(name: Seq<char>, below: nat)
    requires
        1 <= below,
    ensures
        candidates(name, below).finite(),
        candidates(name, below).len() == below - 1,
    decreases below,
{
    if below == 1 {
        assert(candidates(name, below) =~= Set::<Seq<char>>::empty());
    } else {
        let fewer = (below - 1) as nat;
        lemma_candidates_len(name, fewer);
        let last = numbered(name, fewer);
        assert(!candidates(name, fewer).contains(last)) by {
            if candidates(name, fewer).contains(last) {
                let j = choose|j: nat| 1 <= j < fewer && last == numbered(name, j);
                lemma_numbered_injective(name, fewer, j);
            }
        }
        assert(candidates(name, below) =~= candidates(name, fewer).insert(last));
    }
}

/// A finite listing that holds a name and its numbered forms up to
/// `below` has at least `below` entries.
proof fn lemma_taken_bound(name: Seq<char>, taken: Set<Seq<char>>, below: nat)
    requires
        taken.finite(),
        taken.contains(name),
        1 <= below,
        all_taken(name, taken, below),
    ensures
        below <= taken.len(),
{
    lemma_candidates_len(name, below);
    let forms = candidates(name, below);
    assert(!forms.contains(name)) by {
        if forms.contains(name) {
            let j = choose|j: nat| 1 <= j < below && name == numbered(name, j);
            lemma_numbered_is_longer(name, j);
        }
    }
    let held = forms.insert(name);
    assert(held.subset_of(taken));
    vstd::set_lib::lemma_len_subset(held, taken);
}

/// Where a name and its numbered forms below `below` are taken, a counter
/// from `below` on is the first that is free.
proof fn lemma_first_free_exists(name: Seq<char>, taken: Set<Seq<char>>, below: nat)
    requires
        taken.finite(),
        taken.contains(name),
        1 <= below,
        all_taken(name, taken, below),
    ensures
        exists|i: nat| is_first_free(name, taken, i),
    decreases taken.len() + 1 - below,
{
    lemma_taken_bound(name, taken, below);
    if taken.contains(numbered(name, below)) {
        assert(all_taken(name, taken, below + 1));
        lemma_first_free_exists(name, taken, below + 1);
    } else {
        assert(is_first_free(name, taken, below));
    }
}

/// A wanted name that is free is kept as it is.
pub proof fn lemma_free_name_is_kept(name: Seq<char>, taken: Set<Seq<char>>)
    requires
        !taken.contains(name),
    ensures
        resolved(name, taken) == name,
{
}

/// Whatever finite set of names is taken, the resolved name is not one of
/// them: nothing is ever written over.
pub proof fn lemma_resolved_is_free(name: Seq<char>, taken: Set<Seq<char>>)
    requires
        taken.finite(),
    ensures
        !taken.contains(resolved(name, taken)),
{
    if taken.contains(name) {
        lemma_first_free_exists(name, taken, 1);
    }
}

/// Resolving a resolved name changes nothing more.
pub proof fn lemma_resolved_is_stable(name: Seq<char>, taken: Set<Seq<char>>)
    requires
        taken.finite(),
    ensures
        resolved(resolved(name, taken), taken) == resolved(name, taken),
{
    lemma_resolved_is_free(name, taken);
}

/// A counter that is the first free one gives the resolved name.
pub proof fn lemma_first_free_resolves(name: Seq<char>, taken: Set<Seq<char>>, i: nat)
    requires
        taken.contains(name),
        is_first_free(name, taken, i),
    ensures
        resolved(name, taken) == numbered(name, i),
{
    let chosen = choose|j: nat| is_first_free(name, taken, j);
    if chosen < i {
        assert(taken.contains(numbered(name, chosen)));
    }
    if i < chosen {
        assert(taken.contains(numbered(name, i)));
    }
}

/// Whether a listing holds a name.
fn is_taken(taken: &Vec<String>, candidate: &String) -> (found: bool)
    ensures
        found == names_of(taken@).contains(candidate@),
{
    let ghost names = taken@.map_values(|entry: String| entry@);
    let mut j: usize = 0;
    while j < taken.len()
        invariant
            j <= taken.len(),
            names == taken@.map_values(|entry: String| entry@),
            forall|m: int| 0 <= m < j ==> names[m] != candidate@,
        decreases taken.len() - j,
    {
        if taken[j] == *candidate {
            assert(names[j as int] == candidate@);
            assert(names.contains(candidate@));
            return true;
        }
        j += 1;
    }
    assert(!names.contains(candidate@));
    false
}

/// Finds the name under which a file can be stored without writing over
/// another one.
///
/// `taken` lists the names that exist where the file is to be stored. A
/// wanted name that is not among them is returned unchanged. Otherwise the
/// result is the first of `name (1).ext`, `name (2).ext`, ... that is not
/// among them; the counter stands behind the first dot-delimited segment of
/// the name, so `archive.tar.gz` becomes `archive (1).tar.gz`.
pub fn rename_file_on_duplicate(file_name: &str, taken: &Vec<String>) -> (name: String)
    ensures
        name@ == resolved(file_name@, names_of(taken@)),
        !names_of(taken@).contains(name@),
        !names_of(taken@).contains(file_name@) ==> name@ == file_name@,
        names_of(taken@).contains(file_name@) ==> exists|i: nat|
            is_first_free(file_name@, names_of(taken@), i) && name@ == numbered(file_name@, i),
{
    let ghost names = names_of(taken@);
    let ghost wanted = file_name@;
    let desired = String::from_str(file_name);
    if !is_taken(taken, &desired) {
        return desired;
    }
    proof {
        let entries = taken@.map_values(|entry: String| entry@);
        vstd::seq_lib::seq_to_set_is_finite(entries);
        entries.lemma_cardinality_of_set();
    }
    let total: usize = taken.len();
    let mut counter: u64 = 1;
    let mut candidate = numbered_name(file_name, counter);
    while is_taken(taken, &candidate)
        invariant
            total == taken@.len(),
            names == names_of(taken@),
            wanted == file_name@,
            names.finite(),
            names.len() <= taken@.len(),
            names.contains(wanted),
            1 <= counter,
            all_taken(wanted, names, counter as nat),
            candidate@ == numbered(wanted, counter as nat),
        decreases total - counter,
    {
        proof {
            assert(all_taken(wanted, names, (counter + 1) as nat));
            lemma_taken_bound(wanted, names, (counter + 1) as nat);
        }
        counter += 1;
        candidate = numbered_name(file_name, counter);
    }
    proof {
        lemma_first_free_resolves(wanted, names, counter as nat);
    }
    candidate
}

} // verus!
