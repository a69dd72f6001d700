//! Byte-level encoding shared by the generation store's file format and the
//! configuration hash: little-endian integers and length-prefixed UTF-8 strings.
use vstd::prelude::*;
use vstd::bytes::*;
use vstd::slice::slice_to_vec;
use vstd::utf8::*;

verus! {

/// Eight little-endian bytes.
pub open spec fn enc_u64(x: u64) -> Seq<u8> {
    spec_u64_to_le_bytes(x)
}

/// A string: the length of its UTF-8 form, then that form.
pub open spec fn enc_str(s: Seq<char>) -> Seq<u8> {
    enc_u64(encode_utf8(s).len() as u64) + encode_utf8(s)
}

/// A flag: one byte, 1 or 0.
pub open spec fn enc_bool(b: bool) -> Seq<u8> {
    seq![if b { 1u8 } else { 0u8 }]
}

/// An optional string: a 0 byte, or a 1 byte and the string.
pub open spec fn enc_opt_str(o: Option<Seq<char>>) -> Seq<u8> {
    match o {
        None => seq![0u8],
        Some(s) => seq![1u8] + enc_str(s),
    }
}

/// An optional flag: 0 when absent, 1 for false, 2 for true.
pub open spec fn enc_opt_bool(o: Option<bool>) -> Seq<u8> {
    match o {
        None => seq![0u8],
        Some(b) => seq![if b { 2u8 } else { 1u8 }],
    }
}

/// A list: each item's encoding, in order.
pub open spec fn enc_list<T>(v: Seq<T>, e: spec_fn(T) -> Seq<u8>) -> Seq<u8>
    decreases v.len(),
{
    if v.len() == 0 {
        Seq::empty()
    } else {
        enc_list(v.drop_last(), e) + e(v.last())
    }
}

/// A list preceded by its length.
pub open spec fn enc_counted<T>(v: Seq<T>, e: spec_fn(T) -> Seq<u8>) -> Seq<u8> {
    enc_u64(v.len() as u64) + enc_list(v, e)
}

/// `n` items read one after the other from `pos`, and the position after them.
pub open spec fn parse_list<T>(
    b: Seq<u8>,
    pos: int,
    n: nat,
    f: spec_fn(Seq<u8>, int) -> Option<(T, int)>,
) -> Option<(Seq<T>, int)>
    decreases n,
{
    if n == 0 {
        Some((Seq::empty(), pos))
    } else {
        match parse_list(b, pos, (n - 1) as nat, f) {
            None => None,
            Some(p) => match f(b, p.1) {
                None => None,
                Some(q) => Some((p.0.push(q.0), q.1)),
            },
        }
    }
}

/// A length, then that many items.
pub open spec fn parse_counted<T>(
    b: Seq<u8>,
    pos: int,
    f: spec_fn(Seq<u8>, int) -> Option<(T, int)>,
) -> Option<(Seq<T>, int)> {
    match parse_u64(b, pos) {
        None => None,
        Some(p) => parse_list(b, p.1, p.0 as nat, f),
    }
}

/// The string encoding, as a function value.
pub open spec fn str_encoder() -> spec_fn(Seq<char>) -> Seq<u8> {
    |s: Seq<char>| enc_str(s)
}

/// The string parser, as a function value.
pub open spec fn str_parser() -> spec_fn(Seq<u8>, int) -> Option<(Seq<char>, int)> {
    |b: Seq<u8>, p: int| parse_str(b, p)
}

/// A string whose UTF-8 form has a length that the format can record.
pub open spec fn str_ok(s: Seq<char>) -> bool {
    encode_utf8(s).len() < 0x1_0000_0000_0000_0000
}

/// A list of strings that the format can record.
pub open spec fn strs_ok(v: Seq<Seq<char>>) -> bool {
    v.len() < 0x1_0000_0000_0000_0000 && forall|i: int| 0 <= i < v.len() ==> str_ok(#[trigger] v[i])
}

/// The integer read at `pos`, and the position after it.
pub open spec fn parse_u64(b: Seq<u8>, pos: int) -> Option<(u64, int)> {
    if 0 <= pos && pos + 8 <= b.len() {
        Some((spec_u64_from_le_bytes(b.subrange(pos, pos + 8)), pos + 8))
    } else {
        None
    }
}

/// The string read at `pos`, and the position after it.
pub open spec fn parse_str(b: Seq<u8>, pos: int) -> Option<(Seq<char>, int)> {
    match parse_u64(b, pos) {
        None => None,
        Some(p) => {
            let end = p.1 + p.0;
            if end <= b.len() && valid_utf8(b.subrange(p.1, end)) {
                Some((decode_utf8(b.subrange(p.1, end)), end))
            } else {
                None
            }
        },
    }
}

/// The flag read at `pos`, and the position after it.
pub open spec fn parse_bool(b: Seq<u8>, pos: int) -> Option<(bool, int)> {
    if 0 <= pos < b.len() && b[pos] <= 1 {
        Some((b[pos] == 1, pos + 1))
    } else {
        None
    }
}

/// The optional string read at `pos`, and the position after it.
pub open spec fn parse_opt_str(b: Seq<u8>, pos: int) -> Option<(Option<Seq<char>>, int)> {
    if 0 <= pos < b.len() && b[pos] == 0 {
        Some((None, pos + 1))
    } else if 0 <= pos < b.len() && b[pos] == 1 {
        match parse_str(b, pos + 1) {
            Some(p) => Some((Some(p.0), p.1)),
            None => None,
        }
    } else {
        None
    }
}

/// `b` holds `e` at `pos`.
pub open spec fn holds_at(b: Seq<u8>, pos: int, e: Seq<u8>) -> bool {
    0 <= pos && pos + e.len() <= b.len() && b.subrange(pos, pos + e.len()) == e
}

pub proof fn lemma_holds_split(b: Seq<u8>, pos: int, e1: Seq<u8>, e2: Seq<u8>)
    requires
        holds_at(b, pos, e1 + e2),
    ensures
        holds_at(b, pos, e1),
        holds_at(b, pos + e1.len(), e2),
{
    let w = b.subrange(pos, pos + (e1 + e2).len());
    assert(w == e1 + e2);
    assert(b.subrange(pos, pos + e1.len()) =~= w.subrange(0, e1.len() as int));
    assert(w.subrange(0, e1.len() as int) =~= e1);
    assert(b.subrange(pos + e1.len(), pos + e1.len() + e2.len()) =~= w.subrange(
        e1.len() as int,
        w.len() as int,
    ));
    assert(w.subrange(e1.len() as int, w.len() as int) =~= e2);
}

pub proof fn lemma_parse_u64(b: Seq<u8>, pos: int, x: u64)
    requires
        holds_at(b, pos, enc_u64(x)),
    ensures
        parse_u64(b, pos) == Some((x, pos + 8)),
{
    lemma_auto_spec_u64_to_from_le_bytes();
}

pub proof fn lemma_parse_str(b: Seq<u8>, pos: int, s: Seq<char>)
    requires
        holds_at(b, pos, enc_str(s)),
        encode_utf8(s).len() < 0x1_0000_0000_0000_0000,
    ensures
        parse_str(b, pos) == Some((s, pos + enc_str(s).len())),
{
    let u = encode_utf8(s);
    lemma_auto_spec_u64_to_from_le_bytes();
    lemma_holds_split(b, pos, enc_u64(u.len() as u64), u);
    lemma_parse_u64(b, pos, u.len() as u64);
    encode_utf8_valid_utf8(s);
    encode_utf8_decode_utf8(s);
}

pub proof fn lemma_parse_opt_str(b: Seq<u8>, pos: int, o: Option<Seq<char>>)
    requires
        holds_at(b, pos, enc_opt_str(o)),
        o is Some ==> encode_utf8(o->0).len() < 0x1_0000_0000_0000_0000,
    ensures
        parse_opt_str(b, pos) == Some((o, pos + enc_opt_str(o).len())),
{
    match o {
        None => {
            assert(b[pos] == b.subrange(pos, pos + 1)[0]);
        },
        Some(s) => {
            lemma_holds_split(b, pos, seq![1u8], enc_str(s));
            assert(b[pos] == b.subrange(pos, pos + 1)[0]);
            lemma_parse_str(b, pos + 1, s);
        },
    }
}

pub proof fn lemma_parse_bool(b: Seq<u8>, pos: int, x: bool)
    requires
        holds_at(b, pos, enc_bool(x)),
    ensures
        parse_bool(b, pos) == Some((x, pos + 1)),
{
    assert(b[pos] == b.subrange(pos, pos + 1)[0]);
}

pub proof fn lemma_parse_list<T>(
    b: Seq<u8>,
    pos: int,
    v: Seq<T>,
    e: spec_fn(T) -> Seq<u8>,
    f: spec_fn(Seq<u8>, int) -> Option<(T, int)>,
    ok: spec_fn(T) -> bool,
)
    requires
        holds_at(b, pos, enc_list(v, e)),
        forall|i: int| 0 <= i < v.len() ==> ok(#[trigger] v[i]),
        forall|x: T, p: int| ok(x) && #[trigger] holds_at(b, p, e(x)) ==> f(b, p) == Some((x, p + e(x).len())),
    ensures
        parse_list(b, pos, v.len(), f) == Some((v, pos + enc_list(v, e).len())),
    decreases v.len(),
{
    if v.len() > 0 {
        let p = v.drop_last();
        lemma_holds_split(b, pos, enc_list(p, e), e(v.last()));
        assert forall|i: int| 0 <= i < p.len() implies ok(#[trigger] p[i]) by {
            assert(p[i] == v[i]);
        }
        lemma_parse_list(b, pos, p, e, f, ok);
        assert(ok(v[v.len() - 1]));
        assert(p.push(v.last()) =~= v);
    }
}

/// A list that cannot be read stays unreadable when more items are asked for.
pub proof fn lemma_parse_list_stops<T>(
    b: Seq<u8>,
    pos: int,
    k: nat,
    n: nat,
    f: spec_fn(Seq<u8>, int) -> Option<(T, int)>,
)
    requires
        parse_list(b, pos, k, f) is None,
        k <= n,
    ensures
        parse_list(b, pos, n, f) is None,
    decreases n,
{
    if k < n {
        lemma_parse_list_stops(b, pos, k, (n - 1) as nat, f);
    }
}

pub proof fn lemma_parse_strs(b: Seq<u8>, pos: int, v: Seq<Seq<char>>)
    requires
        holds_at(b, pos, enc_counted(v, str_encoder())),
        strs_ok(v),
    ensures
        parse_counted(b, pos, str_parser()) == Some(
            (v, pos + enc_counted(v, str_encoder()).len()),
        ),
{
    lemma_auto_spec_u64_to_from_le_bytes();
    lemma_holds_split(b, pos, enc_u64(v.len() as u64), enc_list(v, str_encoder()));
    lemma_parse_u64(b, pos, v.len() as u64);
    assert forall|x: Seq<char>, p: int|
        str_ok(x) && #[trigger] holds_at(b, p, str_encoder()(x)) implies str_parser()(b, p) == Some(
        (x, p + str_encoder()(x).len()),
    ) by {
        lemma_parse_str(b, p, x);
    }
    lemma_parse_list(b, pos + 8, v, str_encoder(), str_parser(), |x: Seq<char>| str_ok(x));
}

/// Relies on `std::str::from_utf8`: it accepts exactly the valid UTF-8 sequences, and
/// the string it returns is the one they encode.
#[verifier::external_body]
fn utf8_text(b: &[u8]) -> (r: Option<String>)
    ensures
        r is Some <==> valid_utf8(b@),
        r matches Some(s) ==> s@ == decode_utf8(b@),
{
    std::str::from_utf8(b).ok().map(|s| s.to_string())
}

pub fn put_u64(out: &mut Vec<u8>, x: u64)
    ensures
        final(out)@ == old(out)@ + enc_u64(x),
{
    let mut b = u64_to_le_bytes(x);
    out.append(&mut b);
}

pub fn put_str(out: &mut Vec<u8>, s: &str)
    ensures
        final(out)@ == old(out)@ + enc_str(s@),
        str_ok(s@),
{
    let bytes = s.as_bytes();
    let n = bytes.len();
    proof {
        assert(bytes@ == encode_utf8(s@));
    }
    put_u64(out, n as u64);
    let mut v = slice_to_vec(bytes);
    out.append(&mut v);
    assert(final(out)@ =~= old(out)@ + enc_str(s@));
}

pub fn put_bool(out: &mut Vec<u8>, x: bool)
    ensures
        final(out)@ == old(out)@ + enc_bool(x),
{
    out.push(if x { 1u8 } else { 0u8 });
    assert(final(out)@ =~= old(out)@ + enc_bool(x));
}

pub fn put_opt_bool(out: &mut Vec<u8>, x: Option<bool>)
    ensures
        final(out)@ == old(out)@ + enc_opt_bool(x),
{
    out.push(
        match x {
            None => 0u8,
            Some(false) => 1u8,
            Some(true) => 2u8,
        },
    );
    assert(final(out)@ =~= old(out)@ + enc_opt_bool(x));
}

pub fn put_opt_str(out: &mut Vec<u8>, x: Option<&String>)
    ensures
        final(out)@ == old(out)@ + enc_opt_str(
            match x {
                Some(s) => Some(s@),
                None => None,
            },
        ),
        x matches Some(s) ==> str_ok(s@),
{
    match x {
        None => {
            out.push(0u8);
            assert(final(out)@ =~= old(out)@ + seq![0u8]);
        },
        Some(s) => {
            out.push(1u8);
            put_str(out, s.as_str());
            assert(final(out)@ =~= old(out)@ + (seq![1u8] + enc_str(s@)));
        },
    }
}

pub fn put_strs(out: &mut Vec<u8>, v: &Vec<String>)
    ensures
        final(out)@ == old(out)@ + enc_counted(v@.map_values(|s: String| s@), str_encoder()),
        strs_ok(v@.map_values(|s: String| s@)),
{
    let ghost w = v@.map_values(|s: String| s@);
    let ghost start = out@;
    put_u64(out, v.len() as u64);
    let mut i: usize = 0;
    while i < v.len()
        invariant
            i <= v@.len(),
            w == v@.map_values(|s: String| s@),
            out@ == start + enc_u64(v@.len() as u64) + enc_list(
                w.subrange(0, i as int),
                str_encoder(),
            ),
            forall|j: int| 0 <= j < i ==> str_ok(#[trigger] w[j]),
        decreases v@.len() - i,
    {
        put_str(out, v[i].as_str());
        proof {
            let a = w.subrange(0, i as int + 1);
            assert(a.drop_last() =~= w.subrange(0, i as int));
        }
        i = i + 1;
    }
    assert(w.subrange(0, v@.len() as int) =~= w);
    assert(final(out)@ =~= old(out)@ + enc_counted(w, str_encoder()));
}

pub fn take_strs(b: &[u8], pos: usize) -> (r: Option<(Vec<String>, usize)>)
    ensures
        match r {
            Some(p) => parse_counted(b@, pos as int, str_parser()) == Some(
                (p.0@.map_values(|s: String| s@), p.1 as int),
            ),
            None => parse_counted(b@, pos as int, str_parser()) is None,
        },
{
    let (n, start) = match take_u64(b, pos) {
        None => return None,
        Some(p) => p,
    };
    let mut out: Vec<String> = Vec::new();
    let mut at = start;
    let mut i: u64 = 0;
    while i < n
        invariant
            i <= n,
            parse_u64(b@, pos as int) == Some((n, start as int)),
            parse_list(b@, start as int, i as nat, str_parser()) == Some(
                (out@.map_values(|s: String| s@), at as int),
            ),
        decreases n - i,
    {
        let ghost before = out@.map_values(|s: String| s@);
        match take_str(b, at) {
            None => {
                proof {
                    lemma_parse_list_stops(b@, start as int, (i + 1) as nat, n as nat, str_parser());
                }
                return None;
            },
            Some((s, next)) => {
                out.push(s);
                at = next;
                assert(out@.map_values(|s: String| s@) =~= before.push(s@));
            },
        }
        i = i + 1;
    }
    Some((out, at))
}

pub fn take_u64(b: &[u8], pos: usize) -> (r: Option<(u64, usize)>)
    ensures
        match r {
            Some(p) => parse_u64(b@, pos as int) == Some((p.0, p.1 as int)),
            None => parse_u64(b@, pos as int) is None,
        },
{
    if pos > b.len() || b.len() - pos < 8 {
        return None;
    }
    let x = u64_from_le_bytes(vstd::slice::slice_subrange(b, pos, pos + 8));
    Some((x, pos + 8))
}

pub fn take_str(b: &[u8], pos: usize) -> (r: Option<(String, usize)>)
    ensures
        match r {
            Some(p) => parse_str(b@, pos as int) == Some((p.0@, p.1 as int)),
            None => parse_str(b@, pos as int) is None,
        },
{
    let (n, start) = match take_u64(b, pos) {
        None => return None,
        Some(p) => p,
    };
    if n > (b.len() - start) as u64 {
        return None;
    }
    let end = start + n as usize;
    match utf8_text(vstd::slice::slice_subrange(b, start, end)) {
        None => None,
        Some(s) => Some((s, end)),
    }
}

pub fn take_bool(b: &[u8], pos: usize) -> (r: Option<(bool, usize)>)
    ensures
        match r {
            Some(p) => parse_bool(b@, pos as int) == Some((p.0, p.1 as int)),
            None => parse_bool(b@, pos as int) is None,
        },
{
    if pos >= b.len() || b[pos] > 1 {
        return None;
    }
    Some((b[pos] == 1, pos + 1))
}

pub fn take_opt_str(b: &[u8], pos: usize) -> (r: Option<(Option<String>, usize)>)
    ensures
        match r {
            Some(p) => parse_opt_str(b@, pos as int) == Some(
                (
                    match p.0 {
                        Some(s) => Some(s@),
                        None => None,
                    },
                    p.1 as int,
                ),
            ),
            None => parse_opt_str(b@, pos as int) is None,
        },
{
    if pos >= b.len() {
        return None;
    }
    if b[pos] == 0 {
        return Some((None, pos + 1));
    }
    if b[pos] != 1 {
        return None;
    }
    match take_str(b, pos + 1) {
        None => None,
        Some((s, end)) => Some((Some(s), end)),
    }
}

} // verus!
