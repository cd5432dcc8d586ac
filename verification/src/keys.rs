//! Cache key derivation: the deterministic key under which a page of a
//! resource collection is cached, `"{kind}_page_{number}"`.

use vstd::prelude::*;

use crate::text::{dec_min, dec_u64, digit_char, push_char};

verus! {

/// The key text for page `page` of the collection `kind`.
pub open spec fn key_view(kind: Seq<char>, page: u64) -> Seq<char> {
    kind + "_page_"@ + dec_min(page as nat)
}

/// Derives the cache key for a page request.
pub fn cache_key(kind: &str, page: u64) -> (key: String)
    ensures
        key@ == key_view(kind@, page),
{
    let mut key = kind.to_owned();
    key.append("_page_");
    let digits = dec_u64(page);
    proof {
        assert(kind@ + "_page_"@ + digits@.subrange(0, 0) =~= kind@ + "_page_"@);
    }
    let mut i: usize = 0;
    while i < digits.len()
        invariant
            i <= digits.len(),
            digits@ == dec_min(page as nat),
            key@ == kind@ + "_page_"@ + digits@.subrange(0, i as int),
        decreases digits.len() - i,
    {
        push_char(&mut key, digits[i]);
        proof {
            assert(digits@.subrange(0, i as int).push(digits@[i as int]) =~= digits@.subrange(
                0,
                i as int + 1,
            ));
            assert((kind@ + "_page_"@ + digits@.subrange(0, i as int)).push(digits@[i as int])
                =~= kind@ + "_page_"@ + digits@.subrange(0, i as int + 1));
        }
        i = i + 1;
    }
    proof {
        assert(digits@.subrange(0, digits@.len() as int) =~= digits@);
    }
    key
}

proof fn lemma_dec_min_len(v: nat)
    ensures
        dec_min(v).len() >= 1,
        v >= 10 ==> dec_min(v).len() >= 2,
    decreases v,
{
    if v >= 10 {
        lemma_dec_min_len(v / 10);
    }
}

proof fn lemma_dec_min_injective(a: nat, b: nat)
    requires
        dec_min(a) == dec_min(b),
    ensures
        a == b,
    decreases a,
{
    if a < 10 && b < 10 {
        assert(dec_min(a)[0] == digit_char(a));
        assert(dec_min(b)[0] == digit_char(b));
    } else if a < 10 {
        lemma_dec_min_len(b);
        assert(dec_min(a).len() == 1);
    } else if b < 10 {
        lemma_dec_min_len(a);
        assert(dec_min(b).len() == 1);
    } else {
        assert(dec_min(a).last() == digit_char(a % 10));
        assert(dec_min(b).last() == digit_char(b % 10));
        assert(a % 10 == b % 10);
        assert(dec_min(a).drop_last() =~= dec_min(a / 10));
        assert(dec_min(b).drop_last() =~= dec_min(b / 10));
        lemma_dec_min_injective(a / 10, b / 10);
        vstd::arithmetic::div_mod::lemma_fundamental_div_mod(a as int, 10);
        vstd::arithmetic::div_mod::lemma_fundamental_div_mod(b as int, 10);
    }
}

/// Distinct pages of one collection never share a cache key, so a
/// populated page can never be served for another page number.
pub proof fn lemma_cache_key_distinct_pages(kind: Seq<char>, page_a: u64, page_b: u64)
    requires
        page_a != page_b,
    ensures
        key_view(kind, page_a) != key_view(kind, page_b),
{
    if key_view(kind, page_a) == key_view(kind, page_b) {
        let pre = kind + "_page_"@;
        let ka = key_view(kind, page_a);
        let kb = key_view(kind, page_b);
        assert(ka.subrange(pre.len() as int, ka.len() as int) =~= dec_min(page_a as nat));
        assert(kb.subrange(pre.len() as int, kb.len() as int) =~= dec_min(page_b as nat));
        lemma_dec_min_injective(page_a as nat, page_b as nat);
    }
}

} // verus!
