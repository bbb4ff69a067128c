use vstd::array::{spec_array_fill_for_copy_type, spec_array_update};
use vstd::prelude::*;

use crate::bytes::{
    le_u32, le_u64, lemma_le_u32_inverse, lemma_le_u64_inverse, lemma_u32_bytes_inverse,
    lemma_u64_bytes_inverse, read_u32, read_u64, u32_bytes, u64_bytes, write_u32, write_u64,
};
use crate::identity::Identity;
use crate::state::{IcoView, ICOAccount, PreSaleAccount, SaleAccount};

verus! {

// ---------------------------------------------------------------------------
// Sequences of fixed-width records
// ---------------------------------------------------------------------------

/// Concatenated encodings of the records of `s`.
pub open spec fn enc_seq<T>(s: Seq<T>, f: spec_fn(T) -> Seq<u8>) -> Seq<u8>
    decreases s.len(),
{
    if s.len() == 0 {
        Seq::empty()
    } else {
        enc_seq(s.drop_last(), f) + f(s.last())
    }
}

/// Parses `n` records of `w` bytes each from the front of `b`; returns them
/// and the bytes that follow.
pub open spec fn parse_seq<T>(b: Seq<u8>, n: nat, w: nat, p: spec_fn(Seq<u8>) -> Option<T>) -> Option<
    (Seq<T>, Seq<u8>),
>
    decreases n,
{
    if n == 0 {
        Some((Seq::empty(), b))
    } else {
        match parse_seq(b, (n - 1) as nat, w, p) {
            None => None,
            Some((s, rest)) => if rest.len() < w {
                None
            } else {
                match p(rest.take(w as int)) {
                    None => None,
                    Some(x) => Some((s.push(x), rest.skip(w as int))),
                }
            },
        }
    }
}

/// `f` and `p` encode and decode records of exactly `w` bytes, and `p`
/// accepts only encodings.
pub open spec fn record_codec<T>(
    f: spec_fn(T) -> Seq<u8>,
    p: spec_fn(Seq<u8>) -> Option<T>,
    w: nat,
) -> bool {
    &&& forall|x: T| (#[trigger] f(x)).len() == w && p(f(x)) == Some(x)
    &&& forall|b: Seq<u8>| b.len() == w && (#[trigger] p(b)) is Some ==> f(p(b)->Some_0) == b
}

proof fn lemma_parse_seq_encodes<T>(
    b: Seq<u8>,
    n: nat,
    w: nat,
    f: spec_fn(T) -> Seq<u8>,
    p: spec_fn(Seq<u8>) -> Option<T>,
)
    requires
        record_codec(f, p, w),
        parse_seq(b, n, w, p) is Some,
    ensures
        parse_seq(b, n, w, p)->Some_0.0.len() == n,
        enc_seq(parse_seq(b, n, w, p)->Some_0.0, f) + parse_seq(b, n, w, p)->Some_0.1 == b,
    decreases n,
{
    if n > 0 {
        lemma_parse_seq_encodes(b, (n - 1) as nat, w, f, p);
        let (s0, rest0) = parse_seq(b, (n - 1) as nat, w, p)->Some_0;
        let x = p(rest0.take(w as int))->Some_0;
        let s = s0.push(x);
        assert(s.drop_last() =~= s0);
        assert(f(x) == rest0.take(w as int));
        assert(rest0 =~= rest0.take(w as int) + rest0.skip(w as int));
        assert(enc_seq(s, f) + rest0.skip(w as int) =~= enc_seq(s0, f) + rest0);
    }
}

proof fn lemma_encoded_seq_parses<T>(
    s: Seq<T>,
    rest: Seq<u8>,
    w: nat,
    f: spec_fn(T) -> Seq<u8>,
    p: spec_fn(Seq<u8>) -> Option<T>,
)
    requires
        record_codec(f, p, w),
    ensures
        parse_seq(enc_seq(s, f) + rest, s.len(), w, p) == Some((s, rest)),
    decreases s.len(),
{
    if s.len() > 0 {
        let s0 = s.drop_last();
        let x = s.last();
        let rest1 = f(x) + rest;
        lemma_encoded_seq_parses(s0, rest1, w, f, p);
        assert(enc_seq(s, f) + rest =~= enc_seq(s0, f) + rest1);
        assert(rest1.take(w as int) =~= f(x));
        assert(rest1.skip(w as int) =~= rest);
        assert(s0.push(x) =~= s);
    }
}

proof fn lemma_parse_seq_fails_on<T>(
    b: Seq<u8>,
    m: nat,
    n: nat,
    w: nat,
    p: spec_fn(Seq<u8>) -> Option<T>,
)
    requires
        m <= n,
        parse_seq(b, m, w, p) is None,
    ensures
        parse_seq(b, n, w, p) is None,
    decreases n,
{
    if n > m {
        lemma_parse_seq_fails_on(b, m, (n - 1) as nat, w, p);
    }
}

// ---------------------------------------------------------------------------
// Identities and records
// ---------------------------------------------------------------------------

/// The identity whose bytes are `b`.
pub open spec fn ident_of(b: Seq<u8>) -> Identity {
    choose|k: Identity| k.bytes@ == b
}

spec fn array_from(b: Seq<u8>, n: nat) -> [u8; 32]
    decreases n,
{
    if n == 0 {
        spec_array_fill_for_copy_type::<u8, 32>(0u8)
    } else {
        spec_array_update(array_from(b, (n - 1) as nat), n - 1, b[n - 1])
    }
}

proof fn lemma_array_from(b: Seq<u8>, n: nat)
    requires
        b.len() == 32,
        n <= 32,
    ensures
        array_from(b, n)@.len() == 32,
        forall|i: int| 0 <= i < n ==> array_from(b, n)@[i] == b[i],
    decreases n,
{
    if n > 0 {
        lemma_array_from(b, (n - 1) as nat);
    }
}

proof fn lemma_ident_of(b: Seq<u8>)
    requires
        b.len() == 32,
    ensures
        ident_of(b).bytes@ == b,
{
    lemma_array_from(b, 32);
    let k = Identity { bytes: array_from(b, 32) };
    assert(k.bytes@ =~= b);
}

proof fn lemma_ident_of_bytes(k: Identity)
    ensures
        ident_of(k.bytes@) == k,
{
    let j = ident_of(k.bytes@);
    assert(j.bytes =~= k.bytes);
}

pub open spec fn entry_enc() -> spec_fn((Identity, u64)) -> Seq<u8> {
    |e: (Identity, u64)| e.0.bytes@ + u64_bytes(e.1)
}

pub open spec fn entry_dec() -> spec_fn(Seq<u8>) -> Option<(Identity, u64)> {
    |b: Seq<u8>| Some((ident_of(b.take(32)), le_u64(b.subrange(32, 40))))
}

pub open spec fn bool_byte(x: bool) -> u8 {
    if x {
        1u8
    } else {
        0u8
    }
}

pub open spec fn pre_enc() -> spec_fn(PreSaleAccount) -> Seq<u8> {
    |r: PreSaleAccount|
        r.address.bytes@ + u64_bytes(r.token_amount) + u64_bytes(r.token_price) + seq![
            bool_byte(r.whitelist_account),
        ]
}

pub open spec fn pre_dec() -> spec_fn(Seq<u8>) -> Option<PreSaleAccount> {
    |b: Seq<u8>|
        if b[48] > 1 {
            None
        } else {
            Some(
                PreSaleAccount {
                    address: ident_of(b.take(32)),
                    token_amount: le_u64(b.subrange(32, 40)),
                    token_price: le_u64(b.subrange(40, 48)),
                    whitelist_account: b[48] == 1,
                },
            )
        }
}

pub open spec fn sale_enc() -> spec_fn(SaleAccount) -> Seq<u8> {
    |r: SaleAccount| r.address.bytes@ + u64_bytes(r.token_amount) + u64_bytes(r.token_price)
}

pub open spec fn sale_dec() -> spec_fn(Seq<u8>) -> Option<SaleAccount> {
    |b: Seq<u8>|
        Some(
            SaleAccount {
                address: ident_of(b.take(32)),
                token_amount: le_u64(b.subrange(32, 40)),
                token_price: le_u64(b.subrange(40, 48)),
            },
        )
}

proof fn lemma_record_codecs()
    ensures
        record_codec(entry_enc(), entry_dec(), 40),
        record_codec(pre_enc(), pre_dec(), 49),
        record_codec(sale_enc(), sale_dec(), 48),
{
    assert forall|x: (Identity, u64)| (#[trigger] entry_enc()(x)).len() == 40 && entry_dec()(
        entry_enc()(x),
    ) == Some(x) by {
        let e = entry_enc()(x);
        lemma_u64_bytes_inverse(x.1);
        assert(e.take(32) =~= x.0.bytes@);
        assert(e.subrange(32, 40) =~= u64_bytes(x.1));
        lemma_ident_of_bytes(x.0);
    }
    assert forall|b: Seq<u8>| b.len() == 40 && (#[trigger] entry_dec()(b)) is Some implies entry_enc()(
        entry_dec()(b)->Some_0,
    ) == b by {
        lemma_ident_of(b.take(32));
        lemma_le_u64_inverse(b.subrange(32, 40));
        assert(entry_enc()(entry_dec()(b)->Some_0) =~= b);
    }
    assert forall|x: PreSaleAccount| (#[trigger] pre_enc()(x)).len() == 49 && pre_dec()(
        pre_enc()(x),
    ) == Some(x) by {
        let e = pre_enc()(x);
        lemma_u64_bytes_inverse(x.token_amount);
        lemma_u64_bytes_inverse(x.token_price);
        assert(e.take(32) =~= x.address.bytes@);
        assert(e.subrange(32, 40) =~= u64_bytes(x.token_amount));
        assert(e.subrange(40, 48) =~= u64_bytes(x.token_price));
        lemma_ident_of_bytes(x.address);
    }
    assert forall|b: Seq<u8>| b.len() == 49 && (#[trigger] pre_dec()(b)) is Some implies pre_enc()(
        pre_dec()(b)->Some_0,
    ) == b by {
        lemma_ident_of(b.take(32));
        lemma_le_u64_inverse(b.subrange(32, 40));
        lemma_le_u64_inverse(b.subrange(40, 48));
        assert(pre_enc()(pre_dec()(b)->Some_0) =~= b);
    }
    assert forall|x: SaleAccount| (#[trigger] sale_enc()(x)).len() == 48 && sale_dec()(
        sale_enc()(x),
    ) == Some(x) by {
        let e = sale_enc()(x);
        lemma_u64_bytes_inverse(x.token_amount);
        lemma_u64_bytes_inverse(x.token_price);
        assert(e.take(32) =~= x.address.bytes@);
        assert(e.subrange(32, 40) =~= u64_bytes(x.token_amount));
        assert(e.subrange(40, 48) =~= u64_bytes(x.token_price));
        lemma_ident_of_bytes(x.address);
    }
    assert forall|b: Seq<u8>| b.len() == 48 && (#[trigger] sale_dec()(b)) is Some implies sale_enc()(
        sale_dec()(b)->Some_0,
    ) == b by {
        lemma_ident_of(b.take(32));
        lemma_le_u64_inverse(b.subrange(32, 40));
        lemma_le_u64_inverse(b.subrange(40, 48));
        assert(sale_enc()(sale_dec()(b)->Some_0) =~= b);
    }
}

// ---------------------------------------------------------------------------
// The ledger record
// ---------------------------------------------------------------------------

/// The three lists are short enough for their 32-bit length prefixes.
pub open spec fn encodable(v: IcoView) -> bool {
    &&& v.balance.len() <= u32::MAX
    &&& v.pre_sale_account.len() <= u32::MAX
    &&& v.sale_account.len() <= u32::MAX
}

/// Total supply, admin and the length of the balance list.
pub open spec fn head_bytes(v: IcoView) -> Seq<u8> {
    u64_bytes(v.total_supply) + v.admin.bytes@ + u32_bytes(v.balance.len() as u32)
}

/// The seven counters and the length of the pre-sale roster.
pub open spec fn middle_bytes(v: IcoView) -> Seq<u8> {
    u64_bytes(v.pre_sale_price) + u64_bytes(v.pre_sale_limit) + u64_bytes(v.sale_price) + u64_bytes(
        v.sale_limit,
    ) + u64_bytes(v.sale_start_time) + u64_bytes(v.sale_end_time) + u64_bytes(v.total_price_earned)
        + u32_bytes(v.pre_sale_account.len() as u32)
}

/// The blob of a ledger record: fields in declaration order, integers
/// little-endian, each list as a 32-bit length followed by its records.
pub open spec fn encode_view(v: IcoView) -> Seq<u8> {
    head_bytes(v) + (enc_seq(v.balance, entry_enc()) + (middle_bytes(v) + (enc_seq(
        v.pre_sale_account,
        pre_enc(),
    ) + (u32_bytes(v.sale_account.len() as u32) + enc_seq(v.sale_account, sale_enc())))))
}

/// The ledger record that the whole of `b` encodes, if any.
pub open spec fn parse_view(b: Seq<u8>) -> Option<IcoView> {
    if b.len() < 44 {
        None
    } else {
        match parse_seq(b.skip(44), le_u32(b.subrange(40, 44)) as nat, 40, entry_dec()) {
            None => None,
            Some((bal, r1)) => if r1.len() < 60 {
                None
            } else {
                match parse_seq(r1.skip(60), le_u32(r1.subrange(56, 60)) as nat, 49, pre_dec()) {
                    None => None,
                    Some((pre, r2)) => if r2.len() < 4 {
                        None
                    } else {
                        match parse_seq(r2.skip(4), le_u32(r2.take(4)) as nat, 48, sale_dec()) {
                            None => None,
                            Some((sa, r3)) => if r3.len() != 0 {
                                None
                            } else {
                                Some(
                                    IcoView {
                                        total_supply: le_u64(b.take(8)),
                                        admin: ident_of(b.subrange(8, 40)),
                                        balance: bal,
                                        pre_sale_price: le_u64(r1.take(8)),
                                        pre_sale_limit: le_u64(r1.subrange(8, 16)),
                                        sale_price: le_u64(r1.subrange(16, 24)),
                                        sale_limit: le_u64(r1.subrange(24, 32)),
                                        sale_start_time: le_u64(r1.subrange(32, 40)),
                                        sale_end_time: le_u64(r1.subrange(40, 48)),
                                        total_price_earned: le_u64(r1.subrange(48, 56)),
                                        pre_sale_account: pre,
                                        sale_account: sa,
                                    },
                                )
                            },
                        }
                    },
                }
            },
        }
    }
}

proof fn lemma_head_parses(v: IcoView, rest: Seq<u8>)
    requires
        v.balance.len() <= u32::MAX,
    ensures
        (head_bytes(v) + rest).len() >= 44,
        (head_bytes(v) + rest).skip(44) == rest,
        le_u32((head_bytes(v) + rest).subrange(40, 44)) as nat == v.balance.len(),
        le_u64((head_bytes(v) + rest).take(8)) == v.total_supply,
        ident_of((head_bytes(v) + rest).subrange(8, 40)) == v.admin,
{
    let b = head_bytes(v) + rest;
    lemma_u64_bytes_inverse(v.total_supply);
    lemma_u32_bytes_inverse(v.balance.len() as u32);
    lemma_ident_of_bytes(v.admin);
    assert(b.skip(44) =~= rest);
    assert(b.subrange(40, 44) =~= u32_bytes(v.balance.len() as u32));
    assert(b.take(8) =~= u64_bytes(v.total_supply));
    assert(b.subrange(8, 40) =~= v.admin.bytes@);
}

proof fn lemma_middle_parses(v: IcoView, rest: Seq<u8>)
    requires
        v.pre_sale_account.len() <= u32::MAX,
    ensures
        ({
            let b = middle_bytes(v) + rest;
            &&& b.len() >= 60
            &&& b.skip(60) == rest
            &&& le_u32(b.subrange(56, 60)) as nat == v.pre_sale_account.len()
            &&& le_u64(b.take(8)) == v.pre_sale_price
            &&& le_u64(b.subrange(8, 16)) == v.pre_sale_limit
            &&& le_u64(b.subrange(16, 24)) == v.sale_price
            &&& le_u64(b.subrange(24, 32)) == v.sale_limit
            &&& le_u64(b.subrange(32, 40)) == v.sale_start_time
            &&& le_u64(b.subrange(40, 48)) == v.sale_end_time
            &&& le_u64(b.subrange(48, 56)) == v.total_price_earned
        }),
{
    let b = middle_bytes(v) + rest;
    lemma_u64_bytes_inverse(v.pre_sale_price);
    lemma_u64_bytes_inverse(v.pre_sale_limit);
    lemma_u64_bytes_inverse(v.sale_price);
    lemma_u64_bytes_inverse(v.sale_limit);
    lemma_u64_bytes_inverse(v.sale_start_time);
    lemma_u64_bytes_inverse(v.sale_end_time);
    lemma_u64_bytes_inverse(v.total_price_earned);
    lemma_u32_bytes_inverse(v.pre_sale_account.len() as u32);
    assert(b.skip(60) =~= rest);
    assert(b.subrange(56, 60) =~= u32_bytes(v.pre_sale_account.len() as u32));
    assert(b.take(8) =~= u64_bytes(v.pre_sale_price));
    assert(b.subrange(8, 16) =~= u64_bytes(v.pre_sale_limit));
    assert(b.subrange(16, 24) =~= u64_bytes(v.sale_price));
    assert(b.subrange(24, 32) =~= u64_bytes(v.sale_limit));
    assert(b.subrange(32, 40) =~= u64_bytes(v.sale_start_time));
    assert(b.subrange(40, 48) =~= u64_bytes(v.sale_end_time));
    assert(b.subrange(48, 56) =~= u64_bytes(v.total_price_earned));
}

/// Decoding the encoding of a record gives the record back.
pub proof fn lemma_decode_encode(v: IcoView)
    requires
        encodable(v),
    ensures
        parse_view(encode_view(v)) == Some(v),
{
    lemma_record_codecs();
    let tail3 = u32_bytes(v.sale_account.len() as u32) + enc_seq(v.sale_account, sale_enc());
    let tail2 = enc_seq(v.pre_sale_account, pre_enc()) + tail3;
    let tail1 = middle_bytes(v) + tail2;
    let b = encode_view(v);
    lemma_head_parses(v, enc_seq(v.balance, entry_enc()) + tail1);
    lemma_encoded_seq_parses(v.balance, tail1, 40, entry_enc(), entry_dec());
    lemma_middle_parses(v, tail2);
    lemma_encoded_seq_parses(v.pre_sale_account, tail3, 49, pre_enc(), pre_dec());
    lemma_u32_bytes_inverse(v.sale_account.len() as u32);
    assert(tail3.take(4) =~= u32_bytes(v.sale_account.len() as u32));
    assert(tail3.skip(4) =~= enc_seq(v.sale_account, sale_enc()) + Seq::<u8>::empty());
    lemma_encoded_seq_parses(v.sale_account, Seq::<u8>::empty(), 48, sale_enc(), sale_dec());
    assert(parse_view(b)->Some_0 == v);
}

proof fn lemma_head_back(v: IcoView, b: Seq<u8>)
    requires
        b.len() >= 44,
        v.total_supply == le_u64(b.take(8)),
        v.admin == ident_of(b.subrange(8, 40)),
        v.balance.len() == le_u32(b.subrange(40, 44)) as nat,
    ensures
        head_bytes(v) == b.take(44),
{
    lemma_le_u32_inverse(b.subrange(40, 44));
    lemma_le_u64_inverse(b.take(8));
    lemma_ident_of(b.subrange(8, 40));
    assert(head_bytes(v) =~= b.take(44));
}

proof fn lemma_middle_back(v: IcoView, b: Seq<u8>)
    requires
        b.len() >= 60,
        v.pre_sale_account.len() == le_u32(b.subrange(56, 60)) as nat,
        v.pre_sale_price == le_u64(b.take(8)),
        v.pre_sale_limit == le_u64(b.subrange(8, 16)),
        v.sale_price == le_u64(b.subrange(16, 24)),
        v.sale_limit == le_u64(b.subrange(24, 32)),
        v.sale_start_time == le_u64(b.subrange(32, 40)),
        v.sale_end_time == le_u64(b.subrange(40, 48)),
        v.total_price_earned == le_u64(b.subrange(48, 56)),
    ensures
        middle_bytes(v) == b.take(60),
{
    lemma_le_u32_inverse(b.subrange(56, 60));
    lemma_le_u64_inverse(b.take(8));
    lemma_le_u64_inverse(b.subrange(8, 16));
    lemma_le_u64_inverse(b.subrange(16, 24));
    lemma_le_u64_inverse(b.subrange(24, 32));
    lemma_le_u64_inverse(b.subrange(32, 40));
    lemma_le_u64_inverse(b.subrange(40, 48));
    lemma_le_u64_inverse(b.subrange(48, 56));
    assert(middle_bytes(v) =~= b.take(60));
}

/// Encoding a decoded blob gives back the same bytes.
pub proof fn lemma_encode_decode(b: Seq<u8>)
    requires
        parse_view(b) is Some,
    ensures
        encodable(parse_view(b)->Some_0),
        encode_view(parse_view(b)->Some_0) == b,
{
    lemma_record_codecs();
    let v = parse_view(b)->Some_0;
    let nb = le_u32(b.subrange(40, 44));
    let r0 = b.skip(44);
    lemma_parse_seq_encodes(r0, nb as nat, 40, entry_enc(), entry_dec());
    let r1 = parse_seq(r0, nb as nat, 40, entry_dec())->Some_0.1;
    let np = le_u32(r1.subrange(56, 60));
    lemma_parse_seq_encodes(r1.skip(60), np as nat, 49, pre_enc(), pre_dec());
    let r2 = parse_seq(r1.skip(60), np as nat, 49, pre_dec())->Some_0.1;
    let ns = le_u32(r2.take(4));
    lemma_parse_seq_encodes(r2.skip(4), ns as nat, 48, sale_enc(), sale_dec());
    let r3 = parse_seq(r2.skip(4), ns as nat, 48, sale_dec())->Some_0.1;
    assert(r3 =~= Seq::<u8>::empty());
    lemma_head_back(v, b);
    lemma_middle_back(v, r1);
    assert(u32_bytes(v.sale_account.len() as u32) + enc_seq(v.sale_account, sale_enc()) =~= r2) by {
        lemma_le_u32_inverse(r2.take(4));
        assert(r2 =~= r2.take(4) + r2.skip(4));
    }
    assert(middle_bytes(v) + (enc_seq(v.pre_sale_account, pre_enc()) + r2) =~= r1) by {
        assert(r1 =~= r1.take(60) + r1.skip(60));
    }
    assert(encode_view(v) =~= b) by {
        assert(b =~= b.take(44) + b.skip(44));
    }
}

// ---------------------------------------------------------------------------
// Executable encoder and decoder
// ---------------------------------------------------------------------------

proof fn lemma_enc_seq_step<T>(s: Seq<T>, i: int, f: spec_fn(T) -> Seq<u8>)
    requires
        0 <= i < s.len(),
    ensures
        enc_seq(s.take(i + 1), f) == enc_seq(s.take(i), f) + f(s[i]),
{
    assert(s.take(i + 1).drop_last() =~= s.take(i));
}

fn read_identity(b: &[u8], pos: usize) -> (k: Identity)
    requires
        pos + 32 <= b@.len(),
    ensures
        k.bytes@ == b@.subrange(pos as int, pos + 32),
{
    let mut a: [u8; 32] = [0u8; 32];
    let n = b.len();
    let mut i: usize = 0;
    while i < 32
        invariant
            0 <= i <= 32,
            n == b@.len(),
            pos + 32 <= b@.len(),
            a@.len() == 32,
            forall|j: int| 0 <= j < i ==> a@[j] == b@[pos + j],
        decreases 32 - i,
    {
        a[i] = b[pos + i];
        i = i + 1;
    }
    assert(a@ =~= b@.subrange(pos as int, pos + 32));
    Identity { bytes: a }
}

fn write_identity(out: &mut Vec<u8>, k: &Identity)
    ensures
        final(out)@ == old(out)@ + k.bytes@,
{
    let ghost start = out@;
    let mut i: usize = 0;
    while i < 32
        invariant
            0 <= i <= 32,
            k.bytes@.len() == 32,
            out@ == start + k.bytes@.take(i as int),
        decreases 32 - i,
    {
        out.push(k.bytes[i]);
        assert(k.bytes@.take(i + 1) =~= k.bytes@.take(i as int).push(k.bytes@[i as int]));
        i = i + 1;
    }
    assert(k.bytes@.take(32) =~= k.bytes@);
}

fn write_balances(out: &mut Vec<u8>, s: &Vec<(Identity, u64)>)
    ensures
        final(out)@ == old(out)@ + enc_seq(s@, entry_enc()),
{
    let ghost p0 = out@;
    let mut i: usize = 0;
    while i < s.len()
        invariant
            0 <= i <= s@.len(),
            out@ == p0 + enc_seq(s@.take(i as int), entry_enc()),
        decreases s.len() - i,
    {
        let e = s[i];
        write_identity(out, &e.0);
        write_u64(out, e.1);
        proof {
            lemma_enc_seq_step(s@, i as int, entry_enc());
        }
        assert(out@ =~= p0 + enc_seq(s@.take(i + 1), entry_enc()));
        i = i + 1;
    }
    assert(s@.take(i as int) =~= s@);
}

fn write_pre_rows(out: &mut Vec<u8>, s: &Vec<PreSaleAccount>)
    ensures
        final(out)@ == old(out)@ + enc_seq(s@, pre_enc()),
{
    let ghost p0 = out@;
    let mut i: usize = 0;
    while i < s.len()
        invariant
            0 <= i <= s@.len(),
            out@ == p0 + enc_seq(s@.take(i as int), pre_enc()),
        decreases s.len() - i,
    {
        let row = s[i];
        write_identity(out, &row.address);
        write_u64(out, row.token_amount);
        write_u64(out, row.token_price);
        out.push(if row.whitelist_account {
            1u8
        } else {
            0u8
        });
        proof {
            lemma_enc_seq_step(s@, i as int, pre_enc());
        }
        assert(out@ =~= p0 + enc_seq(s@.take(i + 1), pre_enc()));
        i = i + 1;
    }
    assert(s@.take(i as int) =~= s@);
}

fn write_sale_rows(out: &mut Vec<u8>, s: &Vec<SaleAccount>)
    ensures
        final(out)@ == old(out)@ + enc_seq(s@, sale_enc()),
{
    let ghost p0 = out@;
    let mut i: usize = 0;
    while i < s.len()
        invariant
            0 <= i <= s@.len(),
            out@ == p0 + enc_seq(s@.take(i as int), sale_enc()),
        decreases s.len() - i,
    {
        let row = s[i];
        write_identity(out, &row.address);
        write_u64(out, row.token_amount);
        write_u64(out, row.token_price);
        proof {
            lemma_enc_seq_step(s@, i as int, sale_enc());
        }
        assert(out@ =~= p0 + enc_seq(s@.take(i + 1), sale_enc()));
        i = i + 1;
    }
    assert(s@.take(i as int) =~= s@);
}

/// Encodes a ledger record as its blob; `None` when a list is too long
/// for its length prefix.
pub fn encode(s: &ICOAccount) -> (r: Option<Vec<u8>>)
    ensures
        match r {
            Some(b) => encodable(s@) && b@ == encode_view(s@),
            None => !encodable(s@),
        },
{
    if s.balance.len() > u32::MAX as usize || s.pre_sale_account.len() > u32::MAX as usize
        || s.sale_account.len() > u32::MAX as usize {
        return None;
    }
    let mut out: Vec<u8> = Vec::new();
    write_u64(&mut out, s.total_supply);
    write_identity(&mut out, &s.admin);
    write_u32(&mut out, s.balance.len() as u32);
    let ghost h = out@;
    assert(h =~= head_bytes(s@));
    write_balances(&mut out, &s.balance);
    let ghost p1 = out@;
    write_u64(&mut out, s.pre_sale_price);
    write_u64(&mut out, s.pre_sale_limit);
    write_u64(&mut out, s.sale_price);
    write_u64(&mut out, s.sale_limit);
    write_u64(&mut out, s.sale_start_time);
    write_u64(&mut out, s.sale_end_time);
    write_u64(&mut out, s.total_price_earned);
    write_u32(&mut out, s.pre_sale_account.len() as u32);
    let ghost m = out@.skip(p1.len() as int);
    assert(m =~= middle_bytes(s@));
    assert(out@ =~= p1 + m);
    write_pre_rows(&mut out, &s.pre_sale_account);
    write_u32(&mut out, s.sale_account.len() as u32);
    write_sale_rows(&mut out, &s.sale_account);
    assert(out@ =~= encode_view(s@));
    Some(out)
}

fn read_balances(b: &[u8], start: usize, n: u32) -> (r: Option<(Vec<(Identity, u64)>, usize)>)
    requires
        start <= b@.len(),
    ensures
        match parse_seq(b@.skip(start as int), n as nat, 40, entry_dec()) {
            None => r is None,
            Some((s, rest)) => r is Some && r->Some_0.0@ == s && r->Some_0.1 <= b@.len() && rest
                == b@.skip(r->Some_0.1 as int),
        },
{
    let mut v: Vec<(Identity, u64)> = Vec::new();
    let mut pos = start;
    let mut i: u32 = 0;
    while i < n
        invariant
            start <= pos <= b@.len(),
            i <= n,
            parse_seq(b@.skip(start as int), i as nat, 40, entry_dec()) == Some(
                (v@, b@.skip(pos as int)),
            ),
        decreases n - i,
    {
        if b.len() - pos < 40 {
            proof {
                lemma_parse_seq_fails_on(
                    b@.skip(start as int),
                    (i + 1) as nat,
                    n as nat,
                    40,
                    entry_dec(),
                );
            }
            return None;
        }
        let k = read_identity(b, pos);
        let x = read_u64(b, pos + 32);
        proof {
            let rest = b@.skip(pos as int);
            assert(rest.take(40).take(32) =~= b@.subrange(pos as int, pos + 32));
            assert(rest.take(40).subrange(32, 40) =~= b@.subrange(pos + 32, pos + 40));
            lemma_ident_of_bytes(k);
            assert(rest.skip(40) =~= b@.skip(pos + 40));
        }
        v.push((k, x));
        pos = pos + 40;
        i = i + 1;
    }
    Some((v, pos))
}

fn read_pre_rows(b: &[u8], start: usize, n: u32) -> (r: Option<(Vec<PreSaleAccount>, usize)>)
    requires
        start <= b@.len(),
    ensures
        match parse_seq(b@.skip(start as int), n as nat, 49, pre_dec()) {
            None => r is None,
            Some((s, rest)) => r is Some && r->Some_0.0@ == s && r->Some_0.1 <= b@.len() && rest
                == b@.skip(r->Some_0.1 as int),
        },
{
    let mut v: Vec<PreSaleAccount> = Vec::new();
    let mut pos = start;
    let mut i: u32 = 0;
    while i < n
        invariant
            start <= pos <= b@.len(),
            i <= n,
            parse_seq(b@.skip(start as int), i as nat, 49, pre_dec()) == Some(
                (v@, b@.skip(pos as int)),
            ),
        decreases n - i,
    {
        if b.len() - pos < 49 || b[pos + 48] > 1 {
            proof {
                let rest = b@.skip(pos as int);
                if rest.len() >= 49 {
                    assert(rest.take(49)[48] == b@[pos + 48]);
                }
                lemma_parse_seq_fails_on(b@.skip(start as int), (i + 1) as nat, n as nat, 49, pre_dec());
            }
            return None;
        }
        let k = read_identity(b, pos);
        let amount = read_u64(b, pos + 32);
        let price = read_u64(b, pos + 40);
        let flag = b[pos + 48] == 1;
        proof {
            let rest = b@.skip(pos as int);
            assert(rest.take(49).take(32) =~= b@.subrange(pos as int, pos + 32));
            assert(rest.take(49).subrange(32, 40) =~= b@.subrange(pos + 32, pos + 40));
            assert(rest.take(49).subrange(40, 48) =~= b@.subrange(pos + 40, pos + 48));
            assert(rest.take(49)[48] == b@[pos + 48]);
            lemma_ident_of_bytes(k);
            assert(rest.skip(49) =~= b@.skip(pos + 49));
        }
        v.push(PreSaleAccount { address: k, token_amount: amount, token_price: price, whitelist_account: flag });
        pos = pos + 49;
        i = i + 1;
    }
    Some((v, pos))
}

fn read_sale_rows(b: &[u8], start: usize, n: u32) -> (r: Option<(Vec<SaleAccount>, usize)>)
    requires
        start <= b@.len(),
    ensures
        match parse_seq(b@.skip(start as int), n as nat, 48, sale_dec()) {
            None => r is None,
            Some((s, rest)) => r is Some && r->Some_0.0@ == s && r->Some_0.1 <= b@.len() && rest
                == b@.skip(r->Some_0.1 as int),
        },
{
    let mut v: Vec<SaleAccount> = Vec::new();
    let mut pos = start;
    let mut i: u32 = 0;
    while i < n
        invariant
            start <= pos <= b@.len(),
            i <= n,
            parse_seq(b@.skip(start as int), i as nat, 48, sale_dec()) == Some(
                (v@, b@.skip(pos as int)),
            ),
        decreases n - i,
    {
        if b.len() - pos < 48 {
            proof {
                lemma_parse_seq_fails_on(b@.skip(start as int), (i + 1) as nat, n as nat, 48, sale_dec());
            }
            return None;
        }
        let k = read_identity(b, pos);
        let amount = read_u64(b, pos + 32);
        let price = read_u64(b, pos + 40);
        proof {
            let rest = b@.skip(pos as int);
            assert(rest.take(48).take(32) =~= b@.subrange(pos as int, pos + 32));
            assert(rest.take(48).subrange(32, 40) =~= b@.subrange(pos + 32, pos + 40));
            assert(rest.take(48).subrange(40, 48) =~= b@.subrange(pos + 40, pos + 48));
            lemma_ident_of_bytes(k);
            assert(rest.skip(48) =~= b@.skip(pos + 48));
        }
        v.push(SaleAccount { address: k, token_amount: amount, token_price: price });
        pos = pos + 48;
        i = i + 1;
    }
    Some((v, pos))
}

/// Decodes a blob into the ledger record it encodes; `None` when the bytes
/// are not exactly the encoding of a record.
#[verifier::rlimit(80)]
pub fn decode(b: &[u8]) -> (r: Option<ICOAccount>)
    ensures
        match parse_view(b@) {
            Some(v) => r is Some && r->Some_0@ == v,
            None => r is None,
        },
{
    if b.len() < 44 {
        return None;
    }
    let total_supply = read_u64(b, 0);
    let admin = read_identity(b, 8);
    let nb = read_u32(b, 40);
    proof {
        assert(b@.take(8) =~= b@.subrange(0, 8));
        lemma_ident_of_bytes(admin);
    }
    let (balance, p1) = match read_balances(b, 44, nb) {
        Some(x) => x,
        None => return None,
    };
    if b.len() - p1 < 60 {
        return None;
    }
    let pre_sale_price = read_u64(b, p1);
    let pre_sale_limit = read_u64(b, p1 + 8);
    let sale_price = read_u64(b, p1 + 16);
    let sale_limit = read_u64(b, p1 + 24);
    let sale_start_time = read_u64(b, p1 + 32);
    let sale_end_time = read_u64(b, p1 + 40);
    let total_price_earned = read_u64(b, p1 + 48);
    let np = read_u32(b, p1 + 56);
    proof {
        let r1 = b@.skip(p1 as int);
        assert(r1.take(8) =~= b@.subrange(p1 as int, p1 + 8));
        assert(r1.subrange(8, 16) =~= b@.subrange(p1 + 8, p1 + 16));
        assert(r1.subrange(16, 24) =~= b@.subrange(p1 + 16, p1 + 24));
        assert(r1.subrange(24, 32) =~= b@.subrange(p1 + 24, p1 + 32));
        assert(r1.subrange(32, 40) =~= b@.subrange(p1 + 32, p1 + 40));
        assert(r1.subrange(40, 48) =~= b@.subrange(p1 + 40, p1 + 48));
        assert(r1.subrange(48, 56) =~= b@.subrange(p1 + 48, p1 + 56));
        assert(r1.subrange(56, 60) =~= b@.subrange(p1 + 56, p1 + 60));
        assert(r1.skip(60) =~= b@.skip(p1 + 60));
    }
    let (pre_sale_account, p2) = match read_pre_rows(b, p1 + 60, np) {
        Some(x) => x,
        None => return None,
    };
    if b.len() - p2 < 4 {
        return None;
    }
    let ns = read_u32(b, p2);
    proof {
        let r2 = b@.skip(p2 as int);
        assert(r2.take(4) =~= b@.subrange(p2 as int, p2 + 4));
        assert(r2.skip(4) =~= b@.skip(p2 + 4));
    }
    let (sale_account, p3) = match read_sale_rows(b, p2 + 4, ns) {
        Some(x) => x,
        None => return None,
    };
    if p3 != b.len() {
        return None;
    }
    let r = ICOAccount {
        total_supply,
        admin,
        balance,
        pre_sale_price,
        pre_sale_limit,
        sale_price,
        sale_limit,
        sale_start_time,
        sale_end_time,
        total_price_earned,
        pre_sale_account,
        sale_account,
    };
    assert(b@.skip(p3 as int).len() == 0);
    Some(r)
}

} // verus!
