//! Names that do not clash with what a destination already holds.

use crate::text::{
    decimal, decimal_string, digit, join, join_path, lemma_last_dot, split_name, stem_of,
    suffix_of,
};
use vstd::prelude::*;

verus! {

/// The `counter`-th name tried for an entry called `name`: the name itself
/// first, then the name with `_1`, `_2`, ... put between its stem and its
/// suffix.
pub open spec fn candidate_name(name: Seq<char>, counter: nat) -> Seq<char> {
    if counter == 0 {
        name
    } else {
        stem_of(name) + seq!['_'] + decimal(counter) + suffix_of(name)
    }
}

/// The `counter`-th path tried under the directory `dir`.
pub open spec fn candidate_path(dir: Seq<char>, name: Seq<char>, counter: nat) -> Seq<char> {
    join_path(dir, candidate_name(name, counter))
}

/// Builds the `counter`-th path tried for `name` under `dir`.
pub fn candidate_target(dir: &str, name: &str, counter: u64) -> (path: String)
    ensures
        path@ == candidate_path(dir@, name@, counter as nat),
{
    if counter == 0 {
        join(dir, name)
    } else {
        proof {
            reveal_strlit("_");
            assert("_"@ =~= seq!['_']);
        }
        let (stem, suffix) = split_name(name);
        let number = decimal_string(counter);
        let numbered = stem.concat("_").concat(number.as_str()).concat(suffix.as_str());
        join(dir, numbered.as_str())
    }
}

/// A numeral has at least one digit.
pub proof fn lemma_decimal_len(n: nat)
    ensures
        decimal(n).len() >= 1,
        n >= 10 ==> decimal(n).len() >= 2,
    decreases n,
{
    if n >= 10 {
        lemma_decimal_len(n / 10);
    }
}

/// Different values below ten have different digits.
proof fn lemma_digit_injective(a: nat, b: nat)
    requires
        a < 10,
        b < 10,
        digit(a) == digit(b),
    ensures
        a == b,
{
}

/// Different numbers have different numerals.
pub proof fn lemma_decimal_injective(a: nat, b: nat)
    requires
        decimal(a) == decimal(b),
    ensures
        a == b,
    decreases a,
{
    lemma_decimal_len(a);
    lemma_decimal_len(b);
    if a >= 10 && b >= 10 {
        let front_a = decimal(a / 10);
        let front_b = decimal(b / 10);
        assert(front_a == decimal(a).drop_last());
        assert(front_b == decimal(b).drop_last());
        assert(digit(a % 10) == decimal(a).last());
        assert(digit(b % 10) == decimal(b).last());
        lemma_decimal_injective(a / 10, b / 10);
        lemma_digit_injective(a % 10, b % 10);
    } else if a < 10 && b < 10 {
        assert(decimal(a)[0] == digit(a));
        assert(decimal(b)[0] == digit(b));
        lemma_digit_injective(a, b);
    }
}

/// Sequences that agree once the same head and tail are put around them
/// are equal.
proof fn lemma_same_frame(head: Seq<char>, a: Seq<char>, b: Seq<char>, tail: Seq<char>)
    requires
        head + a + tail == head + b + tail,
    ensures
        a == b,
{
    let left = head + a + tail;
    let right = head + b + tail;
    assert(left.len() == right.len());
    assert(a.len() == b.len());
    assert forall|i: int| 0 <= i < a.len() implies a[i] == b[i] by {
        assert(left[head.len() + i] == a[i]);
        assert(right[head.len() + i] == b[i]);
    }
    assert(a =~= b);
}

/// No two counters give the same name: a name once tried is never tried
/// again.
pub proof fn lemma_candidate_names_distinct(name: Seq<char>, a: nat, b: nat)
    requires
        a != b,
    ensures
        candidate_name(name, a) != candidate_name(name, b),
{
    lemma_last_dot(name);
    lemma_decimal_len(a);
    lemma_decimal_len(b);
    assert(stem_of(name) + suffix_of(name) =~= name);
    assert(stem_of(name).len() + suffix_of(name).len() == name.len());
    if a != 0 && b != 0 {
        if candidate_name(name, a) == candidate_name(name, b) {
            lemma_same_frame(stem_of(name) + seq!['_'], decimal(a), decimal(b), suffix_of(name));
            lemma_decimal_injective(a, b);
        }
    } else if a == 0 {
        assert(candidate_name(name, b).len() > name.len());
    } else {
        assert(candidate_name(name, a).len() > name.len());
    }
}

/// Under one directory, different names give different paths.
pub proof fn lemma_join_injective(dir: Seq<char>, a: Seq<char>, b: Seq<char>)
    requires
        join_path(dir, a) == join_path(dir, b),
    ensures
        a == b,
{
    if dir.len() == 0 {
    } else if dir.last() == '/' {
        assert(dir + a + Seq::<char>::empty() =~= dir + a);
        assert(dir + b + Seq::<char>::empty() =~= dir + b);
        lemma_same_frame(dir, a, b, Seq::empty());
    } else {
        assert(dir + seq!['/'] + a + Seq::<char>::empty() =~= dir + seq!['/'] + a);
        assert(dir + seq!['/'] + b + Seq::<char>::empty() =~= dir + seq!['/'] + b);
        lemma_same_frame(dir + seq!['/'], a, b, Seq::empty());
    }
}

/// No two counters give the same path under one directory.
pub proof fn lemma_candidate_paths_distinct(dir: Seq<char>, name: Seq<char>, a: nat, b: nat)
    requires
        a != b,
    ensures
        candidate_path(dir, name, a) != candidate_path(dir, name, b),
{
    lemma_candidate_names_distinct(name, a, b);
    if candidate_path(dir, name, a) == candidate_path(dir, name, b) {
        lemma_join_injective(dir, candidate_name(name, a), candidate_name(name, b));
    }
}

} // verus!
