//! The store-path grammar the resolver's decisions run on: a store path
//! whose basename is a dashless hash, a dash, a known name and a known
//! tail. Picking the right derivation out of a derivation's inputs is a
//! matter of matching keys against this grammar.

use vstd::prelude::*;
use crate::strutil::{spec_ends_with, ends_with_str, substr_eq_at};

verus! {

/// The views of a list of keys.
pub open spec fn key_views(keys: Seq<String>) -> Seq<Seq<char>> {
    keys.map_values(|s: String| s@)
}

/// No character of the sequence is a dash.
pub open spec fn no_dash(s: Seq<char>) -> bool {
    forall|i: int| 0 <= i < s.len() ==> (#[trigger] s[i]) != '-'
}

/// The key is `/nix/store/<hash>-<name><tail>` where the hash is nonempty
/// and dashless. The piece lengths force the decomposition, so the hash is
/// the characters between the store prefix and the first dash after it.
pub open spec fn store_path_matches(key: Seq<char>, name: Seq<char>, tail: Seq<char>) -> bool {
    let hl = key.len() - 12 - name.len() - tail.len();
    &&& hl > 0
    &&& key.subrange(0, 11) == "/nix/store/"@
    &&& no_dash(key.subrange(11, 11 + hl))
    &&& key[11 + hl] == '-'
    &&& key.subrange(12 + hl, 12 + hl + name.len()) == name
    &&& key.subrange(12 + hl + name.len(), key.len() as int) == tail
}

/// A matching key decomposes into exactly the grammar's pieces.
pub proof fn lemma_store_path_decomposition(key: Seq<char>, name: Seq<char>, tail: Seq<char>)
    requires
        store_path_matches(key, name, tail),
    ensures
        key =~= "/nix/store/"@ + key.subrange(11, 11 + (key.len() - 12 - name.len()
            - tail.len())) + seq!['-'] + name + tail,
{
    reveal_strlit("/nix/store/");
}

/// Whether the key is a store path with the given name and tail.
pub fn is_store_path_with(key: &str, name: &str, tail: &str) -> (b: bool)
    ensures
        b == store_path_matches(key@, name@, tail@),
{
    proof {
        reveal_strlit("/nix/store/");
    }
    let n = key.unicode_len();
    let nl = name.unicode_len();
    let tl = tail.unicode_len();
    if n < 12 {
        return false;
    }
    let avail = n - 12;
    if nl > avail {
        return false;
    }
    if tl > avail - nl {
        return false;
    }
    let hl = avail - nl - tl;
    if hl == 0 {
        return false;
    }
    if !substr_eq_at(key, 0, "/nix/store/") {
        return false;
    }
    let mut k: usize = 0;
    while k < hl
        invariant
            k <= hl,
            11 + hl < n,
            n == key@.len(),
            hl as int == key@.len() - 12 - name@.len() - tail@.len(),
            forall|m: int| 0 <= m < k ==> (#[trigger] key@.subrange(11, 11 + hl as int)[m]) != '-',
        decreases hl - k,
    {
        if key.get_char(11 + k) == '-' {
            assert(key@.subrange(11, 11 + hl as int)[k as int] == '-');
            return false;
        }
        k = k + 1;
    }
    if key.get_char(11 + hl) != '-' {
        assert(key@[11 + (key@.len() - 12 - name@.len() - tail@.len())] != '-');
        return false;
    }
    if !substr_eq_at(key, 12 + hl, name) {
        return false;
    }
    if !substr_eq_at(key, 12 + hl + nl, tail) {
        return false;
    }
    true
}

/// Finds the first key that is a store path with the given name and tail.
/// Returns a key exactly when one matches; the returned key is the first
/// matching one.
pub fn find_store_path(keys: &Vec<String>, name: &str, tail: &str) -> (r: Option<String>)
    ensures
        r is Some <==> exists|i: int|
            0 <= i < keys@.len() && store_path_matches(
                #[trigger] key_views(keys@)[i],
                name@,
                tail@,
            ),
        (r matches Some(k) ==> exists|i: int|
            {
                &&& 0 <= i < keys@.len()
                &&& k@ == key_views(keys@)[i]
                &&& store_path_matches(#[trigger] key_views(keys@)[i], name@, tail@)
                &&& forall|j: int|
                    0 <= j < i ==> !store_path_matches(
                        #[trigger] key_views(keys@)[j],
                        name@,
                        tail@,
                    )
            }),
{
    let ghost kv = key_views(keys@);
    let mut i: usize = 0;
    while i < keys.len()
        invariant
            i <= keys.len(),
            kv == key_views(keys@),
            forall|j: int| 0 <= j < i ==> !store_path_matches(#[trigger] kv[j], name@, tail@),
        decreases keys.len() - i,
    {
        if is_store_path_with(keys[i].as_str(), name, tail) {
            assert(key_views(keys@)[i as int] == keys@[i as int]@);
            assert(store_path_matches(key_views(keys@)[i as int], name@, tail@));
            return Some(keys[i].clone());
        }
        i = i + 1;
    }
    None
}

/// Finds the first key with the given suffix after a nonempty head.
/// Returns a key exactly when one matches; the returned key is the first
/// matching one.
pub fn find_key_with_suffix(keys: &Vec<String>, suffix: &str) -> (r: Option<String>)
    ensures
        r is Some <==> exists|i: int|
            {
                &&& 0 <= i < keys@.len()
                &&& (#[trigger] key_views(keys@)[i]).len() > suffix@.len()
                &&& spec_ends_with(key_views(keys@)[i], suffix@)
            },
        (r matches Some(k) ==> exists|i: int|
            {
                &&& 0 <= i < keys@.len()
                &&& k@ == key_views(keys@)[i]
                &&& (#[trigger] key_views(keys@)[i]).len() > suffix@.len()
                &&& spec_ends_with(key_views(keys@)[i], suffix@)
                &&& forall|j: int|
                    0 <= j < i ==> !((#[trigger] key_views(keys@)[j]).len() > suffix@.len()
                        && spec_ends_with(key_views(keys@)[j], suffix@))
            }),
{
    let ghost kv = key_views(keys@);
    let sl = suffix.unicode_len();
    let mut i: usize = 0;
    while i < keys.len()
        invariant
            i <= keys.len(),
            kv == key_views(keys@),
            sl == suffix@.len(),
            forall|j: int|
                0 <= j < i ==> !((#[trigger] kv[j]).len() > suffix@.len() && spec_ends_with(
                    kv[j],
                    suffix@,
                )),
        decreases keys.len() - i,
    {
        if keys[i].as_str().unicode_len() > sl && ends_with_str(keys[i].as_str(), suffix) {
            assert(key_views(keys@)[i as int] == keys@[i as int]@);
            assert(key_views(keys@)[i as int].len() > suffix@.len() && spec_ends_with(
                key_views(keys@)[i as int],
                suffix@,
            ));
            return Some(keys[i].clone());
        }
        i = i + 1;
    }
    None
}

} // verus!
