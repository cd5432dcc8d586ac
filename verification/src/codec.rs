//! The cache codec: a collection page's item sequence rendered as a
//! transport-safe text, and the parse back. Every number is written in
//! exactly twenty decimal digits and every text field is length-prefixed,
//! so the encoding needs no escaping and parsing needs no scanning.
//!
//! Decoding is total and best-effort: any malformed input yields `None`,
//! which the read path treats as a cache miss, never as an error.

use vstd::prelude::*;

use crate::item::{Item, ItemModel, items_bounded};
use crate::text::{
    chars_to_string, dec_padded, lemma_dec_padded_len, lemma_parse_dec_padded, lemma_pow10_20,
    pad_u64, parse_digits, parse_padded, str_to_chars,
};

verus! {

/// Digits of every number field in the encoding.
pub const NUM_WIDTH: usize = 20;

/// A number field: exactly twenty decimal digits.
pub open spec fn enc_num(v: nat) -> Seq<char> {
    dec_padded(v, NUM_WIDTH as nat)
}

/// One item: identifier, then each text field behind its length.
pub open spec fn enc_item(i: ItemModel) -> Seq<char> {
    enc_num(i.id as nat) + enc_num(i.title.len()) + i.title + enc_num(i.content.len()) + i.content
}

pub open spec fn enc_items(items: Seq<ItemModel>) -> Seq<char>
    decreases items.len(),
{
    if items.len() == 0 {
        Seq::empty()
    } else {
        enc_item(items[0]) + enc_items(items.drop_first())
    }
}

/// A whole page: the item count, then the items.
pub open spec fn encode_spec(items: Seq<ItemModel>) -> Seq<char> {
    enc_num(items.len()) + enc_items(items)
}

/// The number field at `pos`, if it is in range, parses, and fits a `u64`.
pub open spec fn dec_num(s: Seq<char>, pos: int) -> Option<nat> {
    if 0 <= pos && pos + NUM_WIDTH <= s.len() {
        match parse_padded(s.subrange(pos, pos + NUM_WIDTH)) {
            Some(v) => if v <= u64::MAX {
                Some(v)
            } else {
                Option::None
            },
            Option::None => Option::None,
        }
    } else {
        Option::None
    }
}

/// `n` items decoded from `pos` on; on success, also where they ended.
pub open spec fn dec_items(s: Seq<char>, pos: int, n: nat) -> Option<(Seq<ItemModel>, int)>
    decreases n,
{
    if n == 0 {
        Some((Seq::empty(), pos))
    } else {
        match dec_num(s, pos) {
            Option::None => Option::None,
            Some(id) => match dec_num(s, pos + 20) {
                Option::None => Option::None,
                Some(tl) => if pos + 40 + tl <= s.len() {
                    match dec_num(s, pos + 40 + tl) {
                        Option::None => Option::None,
                        Some(cl) => if pos + 60 + tl + cl <= s.len() {
                            match dec_items(s, pos + 60 + tl + cl, (n - 1) as nat) {
                                Option::None => Option::None,
                                Some(pair) => Some(
                                    (
                                        seq![
                                            ItemModel {
                                                id: id as u64,
                                                title: s.subrange(pos + 40, pos + 40 + tl),
                                                content: s.subrange(
                                                    pos + 60 + tl,
                                                    pos + 60 + tl + cl,
                                                ),
                                            },
                                        ] + pair.0,
                                        pair.1,
                                    ),
                                ),
                            }
                        } else {
                            Option::None
                        },
                    }
                } else {
                    Option::None
                },
            },
        }
    }
}

/// What a stored text denotes: a page's item sequence, or nothing when
/// the text is malformed or has trailing garbage.
pub open spec fn decode_spec(s: Seq<char>) -> Option<Seq<ItemModel>> {
    match dec_num(s, 0) {
        Option::None => Option::None,
        Some(n) => match dec_items(s, NUM_WIDTH as int, n) {
            Option::None => Option::None,
            Some(pair) => if pair.1 == s.len() {
                Some(pair.0)
            } else {
                Option::None
            },
        },
    }
}

proof fn lemma_dec_num_at(s: Seq<char>, pos: int, v: nat)
    requires
        0 <= pos,
        pos + 20 <= s.len(),
        v <= u64::MAX,
        s.subrange(pos, pos + 20) == enc_num(v),
    ensures
        dec_num(s, pos) == Some(v),
{
    lemma_pow10_20();
    lemma_parse_dec_padded(v, 20);
}

/// Encoding one more item extends the rendering on the right.
pub proof fn lemma_enc_items_push(items: Seq<ItemModel>, x: ItemModel)
    ensures
        enc_items(items.push(x)) == enc_items(items) + enc_item(x),
    decreases items.len(),
{
    if items.len() == 0 {
        assert(items.push(x).drop_first() =~= Seq::<ItemModel>::empty());
        assert(enc_items(items.push(x)) == enc_item(x) + enc_items(Seq::<ItemModel>::empty()));
        assert(enc_item(x) + Seq::<char>::empty() =~= enc_item(x));
        assert(enc_items(items) + enc_item(x) =~= enc_item(x));
    } else {
        assert(items.push(x).drop_first() =~= items.drop_first().push(x));
        lemma_enc_items_push(items.drop_first(), x);
        assert(enc_items(items.push(x)) == enc_item(items[0]) + (enc_items(items.drop_first())
            + enc_item(x)));
        assert(enc_item(items[0]) + (enc_items(items.drop_first()) + enc_item(x)) =~= (enc_item(
            items[0],
        ) + enc_items(items.drop_first())) + enc_item(x));
    }
}

/// A window into `s` that equals `whole` aligns every sub-window.
proof fn lemma_subrange_align(s: Seq<char>, pos: int, whole: Seq<char>, a: int, b: int)
    requires
        0 <= pos,
        pos + whole.len() <= s.len(),
        s.subrange(pos, pos + whole.len() as int) == whole,
        0 <= a <= b <= whole.len(),
    ensures
        s.subrange(pos + a, pos + b) == whole.subrange(a, b),
{
    assert forall|i: int| 0 <= i < b - a implies s.subrange(pos + a, pos + b)[i] == whole.subrange(
        a,
        b,
    )[i] by {
        assert(s.subrange(pos, pos + whole.len() as int)[a + i] == whole[a + i]);
    }
    assert(s.subrange(pos + a, pos + b) =~= whole.subrange(a, b));
}

proof fn lemma_dec_items_of_enc(s: Seq<char>, pos: int, items: Seq<ItemModel>)
    requires
        items_bounded(items),
        0 <= pos,
        pos + enc_items(items).len() <= s.len(),
        s.subrange(pos, pos + enc_items(items).len() as int) == enc_items(items),
    ensures
        dec_items(s, pos, items.len()) == Some((items, pos + enc_items(items).len() as int)),
    decreases items.len(),
{
    if items.len() == 0 {
        assert(Seq::<ItemModel>::empty() =~= items);
    } else {
        let first = items[0];
        let rest = items.drop_first();
        let tl = first.title.len() as int;
        let cl = first.content.len() as int;
        let e = enc_item(first);
        let whole = enc_items(items);
        assert(whole == e + enc_items(rest));
        lemma_dec_padded_len(first.id as nat, 20);
        lemma_dec_padded_len(tl as nat, 20);
        lemma_dec_padded_len(cl as nat, 20);
        assert(e.len() == 60 + tl + cl);
        let elen = e.len() as int;
        let wlen = whole.len() as int;
        lemma_subrange_align(s, pos, whole, 0, 20);
        lemma_subrange_align(s, pos, whole, 20, 40);
        lemma_subrange_align(s, pos, whole, 40, 40 + tl);
        lemma_subrange_align(s, pos, whole, 40 + tl, 60 + tl);
        lemma_subrange_align(s, pos, whole, 60 + tl, 60 + tl + cl);
        lemma_subrange_align(s, pos, whole, elen, wlen);
        assert(whole.subrange(0, 20) =~= enc_num(first.id as nat));
        assert(whole.subrange(20, 40) =~= enc_num(tl as nat));
        assert(whole.subrange(40, 40 + tl) =~= first.title);
        assert(whole.subrange(40 + tl, 60 + tl) =~= enc_num(cl as nat));
        assert(whole.subrange(60 + tl, 60 + tl + cl) =~= first.content);
        assert(whole.subrange(elen, wlen) =~= enc_items(rest));
        lemma_dec_num_at(s, pos, first.id as nat);
        lemma_dec_num_at(s, pos + 20, tl as nat);
        lemma_dec_num_at(s, pos + 40 + tl, cl as nat);
        assert(forall|k: int| 0 <= k < rest.len() ==> rest[k] == items[k + 1]);
        assert(items_bounded(rest));
        let pos2 = pos + 60 + tl + cl;
        let rlen = enc_items(rest).len() as int;
        assert(s.subrange(pos2, pos2 + rlen) == enc_items(rest));
        lemma_dec_items_of_enc(s, pos2, rest);
        let id = first.id as nat;
        assert(ItemModel {
            id: id as u64,
            title: s.subrange(pos + 40, pos + 40 + tl),
            content: s.subrange(pos + 60 + tl, pos + 60 + tl + cl),
        } == first);
        assert(seq![first] + rest =~= items);
    }
}

/// The codec round-trips: decoding an encoded page gives the page back.
/// The bound holds of every item sequence executable code can build.
pub proof fn lemma_codec_round_trip(items: Seq<ItemModel>)
    requires
        items_bounded(items),
    ensures
        decode_spec(encode_spec(items)) == Some(items),
{
    let s = encode_spec(items);
    lemma_dec_padded_len(items.len(), 20);
    assert(s.subrange(0, 20) =~= enc_num(items.len()));
    lemma_dec_num_at(s, 0, items.len());
    assert(s.subrange(20, 20 + enc_items(items).len() as int) =~= enc_items(items));
    lemma_dec_items_of_enc(s, 20, items);
}

/// An encoded page is never the empty text, so an empty cache value is
/// never mistaken for a stored page.
pub proof fn lemma_encode_nonempty(items: Seq<ItemModel>)
    ensures
        encode_spec(items).len() >= 20,
{
    lemma_dec_padded_len(items.len(), 20);
}

/// Copies `s[from..to]`.
fn chars_slice(s: &Vec<char>, from: usize, to: usize) -> (r: Vec<char>)
    requires
        from <= to <= s.len(),
    ensures
        r@ == s@.subrange(from as int, to as int),
{
    let mut r: Vec<char> = Vec::new();
    let mut i: usize = from;
    assert(r@ =~= s@.subrange(from as int, from as int));
    while i < to
        invariant
            from <= i <= to <= s.len(),
            r@ == s@.subrange(from as int, i as int),
        decreases to - i,
    {
        r.push(s[i]);
        proof {
            assert(s@.subrange(from as int, i as int).push(s@[i as int]) =~= s@.subrange(
                from as int,
                i as int + 1,
            ));
        }
        i = i + 1;
    }
    r
}

/// Serializes a page's items for storage in the key-value cache.
pub fn encode_page(items: &Vec<Item>) -> (s: String)
    ensures
        s@ == encode_spec(items.deep_view()),
{
    let ghost model = items.deep_view();
    proof {
        assert(model.len() == items@.len());
    }
    let mut out: Vec<char> = Vec::new();
    let mut count = pad_u64(items.len() as u64, NUM_WIDTH);
    out.append(&mut count);
    proof {
        assert(model.take(0) =~= Seq::<ItemModel>::empty());
        assert(out@ =~= enc_num(model.len()) + enc_items(model.take(0)));
    }
    let mut k: usize = 0;
    while k < items.len()
        invariant
            k <= items.len(),
            model == items.deep_view(),
            model.len() == items@.len(),
            out@ == enc_num(model.len()) + enc_items(model.take(k as int)),
        decreases items.len() - k,
    {
        let item = &items[k];
        proof {
            assert(item@ == model[k as int]);
        }
        let mut id_chars = pad_u64(item.id, NUM_WIDTH);
        out.append(&mut id_chars);
        let title_len = item.title.as_str().unicode_len();
        let mut tl_chars = pad_u64(title_len as u64, NUM_WIDTH);
        out.append(&mut tl_chars);
        let mut title_chars = str_to_chars(item.title.as_str());
        out.append(&mut title_chars);
        let content_len = item.content.as_str().unicode_len();
        let mut cl_chars = pad_u64(content_len as u64, NUM_WIDTH);
        out.append(&mut cl_chars);
        let mut content_chars = str_to_chars(item.content.as_str());
        out.append(&mut content_chars);
        proof {
            assert(out@ =~= enc_num(model.len()) + (enc_items(model.take(k as int)) + enc_item(
                model[k as int],
            )));
            assert(model.take(k as int).push(model[k as int]) =~= model.take(k as int + 1));
            lemma_enc_items_push(model.take(k as int), model[k as int]);
        }
        k = k + 1;
    }
    proof {
        assert(model.take(model.len() as int) =~= model);
    }
    chars_to_string(&out)
}

/// Parses a cached text back into a page's items. `None` on any
/// malformed input; the caller treats that as a cache miss.
pub fn decode_page(s: &str) -> (r: Option<Vec<Item>>)
    ensures
        match r {
            Some(items) => decode_spec(s@) == Some(items.deep_view()),
            Option::None => decode_spec(s@) is None,
        },
{
    let cs = str_to_chars(s);
    if cs.len() < NUM_WIDTH {
        return None;
    }
    let n = match parse_digits(&cs, 0, NUM_WIDTH) {
        Some(v) => v,
        Option::None => {
            return None;
        },
    };
    proof {
        assert(dec_num(s@, 0) == Some(n as nat));
    }
    let mut items: Vec<Item> = Vec::new();
    let mut pos: usize = NUM_WIDTH;
    let mut k: u64 = 0;
    proof {
        assert(items.deep_view() + Seq::<ItemModel>::empty() =~= items.deep_view());
    }
    while k < n
        invariant
            NUM_WIDTH <= pos <= cs.len(),
            k <= n,
            cs@ == s@,
            dec_num(s@, 0) == Some(n as nat),
            match dec_items(s@, pos as int, (n - k) as nat) {
                Some(pair) => dec_items(s@, NUM_WIDTH as int, n as nat) == Some(
                    (items.deep_view() + pair.0, pair.1),
                ),
                Option::None => dec_items(s@, NUM_WIDTH as int, n as nat) is None,
            },
        decreases n - k,
    {
        let ghost m = (n - k) as nat;
        if cs.len() - pos < NUM_WIDTH {
            return None;
        }
        let id = match parse_digits(&cs, pos, pos + NUM_WIDTH) {
            Some(v) => v,
            Option::None => {
                return None;
            },
        };
        if cs.len() - (pos + NUM_WIDTH) < NUM_WIDTH {
            return None;
        }
        let tl = match parse_digits(&cs, pos + NUM_WIDTH, pos + 2 * NUM_WIDTH) {
            Some(v) => v,
            Option::None => {
                return None;
            },
        };
        proof {
            assert(dec_num(s@, pos as int) == Some(id as nat));
            assert(dec_num(s@, pos as int + 20) == Some(tl as nat));
        }
        if ((cs.len() - (pos + 2 * NUM_WIDTH)) as u64) < tl {
            return None;
        }
        let tl_us = tl as usize;
        let title_start = pos + 2 * NUM_WIDTH;
        let title_chars = chars_slice(&cs, title_start, title_start + tl_us);
        let pos2 = title_start + tl_us;
        if cs.len() - pos2 < NUM_WIDTH {
            return None;
        }
        let cl = match parse_digits(&cs, pos2, pos2 + NUM_WIDTH) {
            Some(v) => v,
            Option::None => {
                return None;
            },
        };
        proof {
            assert(dec_num(s@, pos2 as int) == Some(cl as nat));
        }
        if ((cs.len() - (pos2 + NUM_WIDTH)) as u64) < cl {
            return None;
        }
        let cl_us = cl as usize;
        let content_start = pos2 + NUM_WIDTH;
        let content_chars = chars_slice(&cs, content_start, content_start + cl_us);
        let next = content_start + cl_us;
        let item = Item {
            id,
            title: chars_to_string(&title_chars),
            content: chars_to_string(&content_chars),
        };
        let ghost old_items = items.deep_view();
        proof {
            assert(item@ == ItemModel {
                id: (id as nat) as u64,
                title: s@.subrange(pos as int + 40, pos as int + 40 + tl as nat),
                content: s@.subrange(
                    pos as int + 60 + tl as nat,
                    pos as int + 60 + tl as nat + cl as nat,
                ),
            });
        }
        items.push(item);
        proof {
            assert(items.deep_view() =~= old_items.push(item@));
            let step = dec_items(s@, pos as int, m);
            assert(step == match dec_items(s@, next as int, (m - 1) as nat) {
                Some(pair) => Some((seq![item@] + pair.0, pair.1)),
                Option::None => Option::None::<(Seq<ItemModel>, int)>,
            });
            match dec_items(s@, next as int, (m - 1) as nat) {
                Some(pair) => {
                    assert(old_items + (seq![item@] + pair.0) =~= items.deep_view() + pair.0);
                },
                Option::None => {},
            }
        }
        pos = next;
        k = k + 1;
    }
    proof {
        assert(dec_items(s@, pos as int, 0) == Some((Seq::<ItemModel>::empty(), pos as int)));
        assert(items.deep_view() + Seq::<ItemModel>::empty() =~= items.deep_view());
    }
    if pos == cs.len() {
        Some(items)
    } else {
        None
    }
}

} // verus!
