//! HMAC-SHA256 query signing. The secret never appears in the query.
use crate::text::{before, int_text, lemma_text_chain, lemma_text_strict, lemma_text_total, own, print_i64, same, text_lt, views};
use vstd::prelude::*;
use vstd::string::{StringExecFns, StringSliceAdditionalSpecFns};

verus! {

#[derive(Debug, Clone, Copy, PartialEq, Eq, Structural)]
pub enum SignError {
    EmptySecret,
    InvalidKey,
}

impl SignError {
    pub open spec fn text(self) -> Seq<char> {
        match self {
            SignError::EmptySecret => "empty signing secret"@,
            SignError::InvalidKey => "HMAC key rejected"@,
        }
    }

    pub fn message(&self) -> (r: &'static str)
        ensures
            r@ == self.text(),
    {
        match self {
            SignError::EmptySecret => "empty signing secret",
            SignError::InvalidKey => "HMAC key rejected",
        }
    }
}

/// A byte that stays as it is in a query.
pub open spec fn is_plain(b: u8) -> bool {
    ||| 65 <= b <= 90
    ||| 97 <= b <= 122
    ||| 48 <= b <= 57
    ||| b == 45
    ||| b == 95
    ||| b == 46
    ||| b == 126
}

/// Upper-case hexadecimal digit.
pub open spec fn hex_upper(n: int) -> char {
    if n < 10 {
        (48 + n) as u8 as char
    } else {
        (55 + n) as u8 as char
    }
}

/// One byte in a query: itself, `+` for a space, else `%XX`.
pub open spec fn encoded_byte(b: u8) -> Seq<char> {
    if is_plain(b) {
        seq![b as char]
    } else if b == 32 {
        seq!['+']
    } else {
        seq!['%', hex_upper(b as int / 16), hex_upper(b as int % 16)]
    }
}

/// Bytes in a query.
pub open spec fn encoded(bytes: Seq<u8>) -> Seq<char>
    decreases bytes.len(),
{
    if bytes.len() == 0 {
        Seq::empty()
    } else {
        encoded(bytes.drop_last()) + encoded_byte(bytes.last())
    }
}

fn hex_digit(n: u8) -> (c: char)
    requires
        n < 16,
    ensures
        c == hex_upper(n as int),
{
    if n < 10 {
        (48 + n) as char
    } else {
        (55 + n) as char
    }
}

/// Percent-encodes the UTF-8 bytes of a text.
pub fn form_encode(s: &str) -> (r: String)
    ensures
        r@ == encoded(s.spec_bytes()),
{
    let bytes: &[u8] = s.as_bytes();
    let mut out = String::new();
    let mut i: usize = 0;
    while i < bytes.len()
        invariant
            i <= bytes@.len(),
            out@ == encoded(bytes@.take(i as int)),
        decreases bytes@.len() - i,
    {
        let b: u8 = bytes[i];
        let ghost done = out@;
        proof {
            assert(bytes@.take(i as int + 1).drop_last() =~= bytes@.take(i as int));
        }
        if (b >= 65 && b <= 90) || (b >= 97 && b <= 122) || (b >= 48 && b <= 57) || b == 45 || b
            == 95 || b == 46 || b == 126 {
            out.push(b as char);
        } else if b == 32 {
            out.push('+');
        } else {
            out.push('%');
            out.push(hex_digit(b / 16));
            out.push(hex_digit(b % 16));
        }
        proof {
            assert(out@ =~= done + encoded_byte(b));
        }
        i = i + 1;
    }
    proof {
        assert(bytes@.take(i as int) =~= bytes@);
    }
    out
}

/// Whether a character may stand in an encoded text.
pub open spec fn is_query_char(c: char) -> bool {
    ||| 'A' <= c <= 'Z'
    ||| 'a' <= c <= 'z'
    ||| '0' <= c <= '9'
    ||| c == '-'
    ||| c == '_'
    ||| c == '.'
    ||| c == '~'
    ||| c == '+'
    ||| c == '%'
}

/// An encoded text holds none of the characters that part a query.
pub proof fn law_encoded_text_is_query_safe(bytes: Seq<u8>, i: int)
    requires
        0 <= i < encoded(bytes).len(),
    ensures
        is_query_char(encoded(bytes)[i]),
        encoded(bytes)[i] != '&',
        encoded(bytes)[i] != '=',
    decreases bytes.len(),
{
    let rest = encoded(bytes.drop_last());
    if i < rest.len() {
        law_encoded_text_is_query_safe(bytes.drop_last(), i);
    } else {
        let b = bytes.last();
        assert(encoded(bytes)[i] == encoded_byte(b)[i - rest.len()]);
    }
}

/// The value of a hexadecimal digit.
pub open spec fn hex_value(c: char) -> int {
    if '0' <= c <= '9' {
        c as int - '0' as int
    } else {
        c as int - 'A' as int + 10
    }
}

/// The bytes that a text in a query stands for.
pub open spec fn decoded(t: Seq<char>) -> Seq<u8>
    decreases t.len(),
{
    if t.len() == 0 {
        Seq::empty()
    } else if t[0] == '%' && t.len() >= 3 {
        seq![(16 * hex_value(t[1]) + hex_value(t[2])) as u8] + decoded(t.skip(3))
    } else if t[0] == '+' {
        seq![32u8] + decoded(t.skip(1))
    } else {
        seq![t[0] as u8] + decoded(t.skip(1))
    }
}

proof fn lemma_encoded_front(bytes: Seq<u8>)
    requires
        bytes.len() > 0,
    ensures
        encoded(bytes) == encoded_byte(bytes[0]) + encoded(bytes.drop_first()),
    decreases bytes.len(),
{
    if bytes.len() == 1 {
        assert(bytes.drop_last() =~= Seq::<u8>::empty());
        assert(bytes.drop_first() =~= Seq::<u8>::empty());
        assert(encoded(bytes) =~= encoded_byte(bytes[0]) + encoded(bytes.drop_first()));
    } else {
        let d = bytes.drop_last();
        lemma_encoded_front(d);
        assert(d.drop_first() =~= bytes.drop_first().drop_last());
        assert(encoded(bytes) =~= encoded_byte(bytes[0]) + (encoded(d.drop_first()) + encoded_byte(
            bytes.last(),
        )));
    }
}

/// Encoding can be undone: the bytes of a text come back from its query form.
pub proof fn law_encoding_can_be_undone(bytes: Seq<u8>)
    ensures
        decoded(encoded(bytes)) == bytes,
    decreases bytes.len(),
{
    if bytes.len() > 0 {
        let b = bytes[0];
        let rest = bytes.drop_first();
        let t = encoded(bytes);
        let front = encoded_byte(b);
        lemma_encoded_front(bytes);
        law_encoding_can_be_undone(rest);
        assert(t[0] == front[0]);
        assert(t.skip(front.len() as int) =~= encoded(rest));
        if front.len() == 3 {
            assert(t[1] == front[1] && t[2] == front[2]);
            assert(16 * hex_value(t[1]) + hex_value(t[2]) == b);
        }
        assert(seq![b] + rest =~= bytes);
    }
}

/// Query parameters in the order of their keys, each key once.
#[derive(Debug)]
pub struct Params {
    entries: Vec<(String, String)>,
}

/// Parameters as pairs of texts.
pub open spec fn pairs(e: Seq<(String, String)>) -> Seq<(Seq<char>, Seq<char>)> {
    Seq::new(e.len(), |i: int| (e[i].0@, e[i].1@))
}

/// A parameter put in its place: before the first larger key, or over its own.
pub open spec fn put_param(
    p: Seq<(Seq<char>, Seq<char>)>,
    k: Seq<char>,
    v: Seq<char>,
) -> Seq<(Seq<char>, Seq<char>)>
    decreases p.len(),
{
    if p.len() == 0 {
        seq![(k, v)]
    } else if p.last().0 == k {
        p.update(p.len() - 1, (k, v))
    } else if text_lt(k, p.last().0) {
        put_param(p.drop_last(), k, v).push(p.last())
    } else {
        p.push((k, v))
    }
}

/// The value of the first parameter with a key.
pub open spec fn param_of(p: Seq<(Seq<char>, Seq<char>)>, k: Seq<char>) -> Option<Seq<char>>
    decreases p.len(),
{
    if p.len() == 0 {
        None
    } else if p[0].0 == k {
        Some(p[0].1)
    } else {
        param_of(p.drop_first(), k)
    }
}

/// The parameters without a key.
pub open spec fn drop_param(p: Seq<(Seq<char>, Seq<char>)>, k: Seq<char>) -> Seq<
    (Seq<char>, Seq<char>),
> {
    p.filter(|q: (Seq<char>, Seq<char>)| q.0 != k)
}

/// A key that some parameter has is found, and no other.
pub proof fn lemma_param_of(p: Seq<(Seq<char>, Seq<char>)>, k: Seq<char>)
    ensures
        param_of(p, k) is Some <==> exists|i: int| 0 <= i < p.len() && (#[trigger] p[i]).0 == k,
    decreases p.len(),
{
    if p.len() > 0 && p[0].0 != k {
        let d = p.drop_first();
        lemma_param_of(d, k);
        if param_of(d, k) is Some {
            let i = choose|i: int| 0 <= i < d.len() && (#[trigger] d[i]).0 == k;
            assert(p[i + 1].0 == k);
        }
        if exists|i: int| 0 <= i < p.len() && (#[trigger] p[i]).0 == k {
            let i = choose|i: int| 0 <= i < p.len() && (#[trigger] p[i]).0 == k;
            assert(d[i - 1].0 == k);
        }
    }
}

/// A parameter that was set is found, and the other keys stay as they were.
pub proof fn lemma_put_keeps_keys(
    p: Seq<(Seq<char>, Seq<char>)>,
    k: Seq<char>,
    v: Seq<char>,
    q: Seq<char>,
)
    ensures
        param_of(put_param(p, k, v), k) is Some,
        q != k ==> (param_of(put_param(p, k, v), q) is Some <==> param_of(p, q) is Some),
    decreases p.len(),
{
    let w = put_param(p, k, v);
    lemma_param_of(w, k);
    lemma_param_of(w, q);
    lemma_param_of(p, q);
    if p.len() == 0 {
        assert(w[0].0 == k);
    } else if p.last().0 == k {
        assert(w[w.len() - 1].0 == k);
        if q != k {
            if param_of(w, q) is Some {
                let j = choose|j: int| 0 <= j < w.len() && (#[trigger] w[j]).0 == q;
                assert(p[j].0 == q);
            }
            if param_of(p, q) is Some {
                let j = choose|j: int| 0 <= j < p.len() && (#[trigger] p[j]).0 == q;
                assert(w[j].0 == q);
            }
        }
    } else if text_lt(k, p.last().0) {
        let d = p.drop_last();
        lemma_put_keeps_keys(d, k, v, q);
        let e = put_param(d, k, v);
        lemma_param_of(e, k);
        lemma_param_of(e, q);
        lemma_param_of(d, q);
        let i = choose|i: int| 0 <= i < e.len() && (#[trigger] e[i]).0 == k;
        assert(w[i].0 == k);
        if q != k {
            if param_of(w, q) is Some {
                let j = choose|j: int| 0 <= j < w.len() && (#[trigger] w[j]).0 == q;
                if j < e.len() {
                    assert(e[j].0 == q);
                    let m = choose|m: int| 0 <= m < d.len() && (#[trigger] d[m]).0 == q;
                    assert(p[m].0 == q);
                } else {
                    assert(p[p.len() - 1].0 == q);
                }
            }
            if param_of(p, q) is Some {
                let j = choose|j: int| 0 <= j < p.len() && (#[trigger] p[j]).0 == q;
                if j < d.len() {
                    assert(d[j].0 == q);
                    let m = choose|m: int| 0 <= m < e.len() && (#[trigger] e[m]).0 == q;
                    assert(w[m].0 == q);
                } else {
                    assert(w[w.len() - 1].0 == q);
                }
            }
        }
    } else {
        assert(w[w.len() - 1].0 == k);
        if q != k {
            if param_of(w, q) is Some {
                let j = choose|j: int| 0 <= j < w.len() && (#[trigger] w[j]).0 == q;
                assert(p[j].0 == q);
            }
            if param_of(p, q) is Some {
                let j = choose|j: int| 0 <= j < p.len() && (#[trigger] p[j]).0 == q;
                assert(w[j].0 == q);
            }
        }
    }
}

/// A key that was taken out is gone, and the other keys stay.
pub proof fn lemma_drop_keeps_keys(p: Seq<(Seq<char>, Seq<char>)>, k: Seq<char>, q: Seq<char>)
    ensures
        param_of(drop_param(p, k), k) is None,
        q != k ==> (param_of(drop_param(p, k), q) is Some <==> param_of(p, q) is Some),
        param_of(p, k) is None ==> drop_param(p, k) == p,
    decreases p.len(),
{
    reveal(Seq::filter);
    let w = drop_param(p, k);
    lemma_param_of(w, k);
    lemma_param_of(w, q);
    lemma_param_of(p, q);
    lemma_param_of(p, k);
    if p.len() > 0 {
        let d = p.drop_last();
        lemma_drop_keeps_keys(d, k, q);
        let e = drop_param(d, k);
        lemma_param_of(e, k);
        lemma_param_of(e, q);
        lemma_param_of(d, q);
        lemma_param_of(d, k);
        if exists|j: int| 0 <= j < d.len() && (#[trigger] d[j]).0 == k {
            let j = choose|j: int| 0 <= j < d.len() && (#[trigger] d[j]).0 == k;
            assert(p[j].0 == k);
        }
        if param_of(p, k) is None {
            assert(p[p.len() - 1].0 != k);
            assert(w =~= p);
        }
        if exists|j: int| 0 <= j < w.len() && (#[trigger] w[j]).0 == k {
            let j = choose|j: int| 0 <= j < w.len() && (#[trigger] w[j]).0 == k;
            if j < e.len() {
                assert(e[j].0 == k);
            }
        }
        if q != k {
            if param_of(w, q) is Some {
                let j = choose|j: int| 0 <= j < w.len() && (#[trigger] w[j]).0 == q;
                if j < e.len() {
                    assert(e[j].0 == q);
                    let m = choose|m: int| 0 <= m < d.len() && (#[trigger] d[m]).0 == q;
                    assert(p[m].0 == q);
                } else {
                    assert(p[p.len() - 1].0 == q);
                }
            }
            if param_of(p, q) is Some {
                let j = choose|j: int| 0 <= j < p.len() && (#[trigger] p[j]).0 == q;
                if j < d.len() {
                    assert(d[j].0 == q);
                    let m = choose|m: int| 0 <= m < e.len() && (#[trigger] e[m]).0 == q;
                    assert(w[m].0 == q);
                } else {
                    assert(w[w.len() - 1].0 == q);
                }
            }
        }
    }
}

proof fn lemma_put_param(
    p: Seq<(Seq<char>, Seq<char>)>,
    k: Seq<char>,
    v: Seq<char>,
    i: int,
    over: bool,
)
    requires
        0 <= i <= p.len(),
        forall|j: int| i <= j < p.len() ==> (#[trigger] p[j]).0 != k && text_lt(k, p[j].0),
        over ==> i > 0 && p[i - 1].0 == k,
        !over && i > 0 ==> p[i - 1].0 != k && !text_lt(k, p[i - 1].0),
    ensures
        put_param(p, k, v) == (if over {
            p.update(i - 1, (k, v))
        } else {
            p.insert(i, (k, v))
        }),
    decreases p.len(),
{
    if i < p.len() {
        let d = p.drop_last();
        assert(p[p.len() - 1].0 != k);
        assert forall|j: int| i <= j < d.len() implies (#[trigger] d[j]).0 != k && text_lt(
            k,
            d[j].0,
        ) by {
            assert(d[j] == p[j]);
        }
        lemma_put_param(d, k, v, i, over);
        if over {
            assert(d.update(i - 1, (k, v)).push(p.last()) =~= p.update(i - 1, (k, v)));
        } else {
            assert(d.insert(i, (k, v)).push(p.last()) =~= p.insert(i, (k, v)));
        }
    } else if over {
    } else if p.len() == 0 {
        assert(p.insert(0, (k, v)) =~= seq![(k, v)]);
    } else {
        assert(p.insert(i, (k, v)) =~= p.push((k, v)));
    }
}

/// Whether keys stand in strictly rising order.
pub open spec fn keys_rise(p: Seq<(Seq<char>, Seq<char>)>) -> bool {
    forall|i: int, j: int|
        0 <= i < j < p.len() ==> text_lt((#[trigger] p[i]).0, (#[trigger] p[j]).0)
}

/// Putting a parameter in keeps the keys rising, and the other keys are the ones
/// that were there.
proof fn lemma_put_rises(p: Seq<(Seq<char>, Seq<char>)>, k: Seq<char>, v: Seq<char>)
    requires
        keys_rise(p),
    ensures
        keys_rise(put_param(p, k, v)),
        put_param(p, k, v).len() > 0,
        p.len() > 0 ==> (put_param(p, k, v).last().0 == p.last().0 || put_param(p, k, v).last().0
            == k),
        p.len() == 0 ==> put_param(p, k, v).last().0 == k,
    decreases p.len(),
{
    if p.len() > 0 && p.last().0 != k && text_lt(k, p.last().0) {
        let d = p.drop_last();
        assert forall|i: int, j: int| 0 <= i < j < d.len() implies text_lt(
            (#[trigger] d[i]).0,
            (#[trigger] d[j]).0,
        ) by {
            assert(d[i] == p[i] && d[j] == p[j]);
        }
        lemma_put_rises(d, k, v);
        let w = put_param(d, k, v);
        let r = w.push(p.last());
        assert(text_lt(w.last().0, p.last().0)) by {
            if w.last().0 != k {
                assert(w.last().0 == d.last().0);
                assert(text_lt(p[p.len() - 2].0, p[p.len() - 1].0));
            }
        }
        assert forall|i: int, j: int| 0 <= i < j < r.len() implies text_lt(
            (#[trigger] r[i]).0,
            (#[trigger] r[j]).0,
        ) by {
            if j == w.len() && i < w.len() - 1 {
                assert(text_lt(w[i].0, w[w.len() - 1].0));
                lemma_text_chain(w[i].0, w.last().0, p.last().0);
            }
        }
    } else if p.len() > 0 && p.last().0 == k {
        let r = p.update(p.len() - 1, (k, v));
        assert forall|i: int, j: int| 0 <= i < j < r.len() implies text_lt(
            (#[trigger] r[i]).0,
            (#[trigger] r[j]).0,
        ) by {
            assert(text_lt(p[i].0, p[j].0));
        }
    } else if p.len() > 0 {
        let r = p.push((k, v));
        lemma_text_total(p.last().0, k);
        assert forall|i: int, j: int| 0 <= i < j < r.len() implies text_lt(
            (#[trigger] r[i]).0,
            (#[trigger] r[j]).0,
        ) by {
            if j == p.len() && i < p.len() - 1 {
                assert(text_lt(p[i].0, p[p.len() - 1].0));
                lemma_text_chain(p[i].0, p.last().0, k);
            }
        }
    }
}

/// Taking a parameter out keeps the keys rising, and adds none.
proof fn lemma_drop_rises(p: Seq<(Seq<char>, Seq<char>)>, k: Seq<char>)
    requires
        keys_rise(p),
    ensures
        keys_rise(drop_param(p, k)),
        forall|i: int|
            0 <= i < drop_param(p, k).len() ==> p.contains(#[trigger] drop_param(p, k)[i]),
    decreases p.len(),
{
    reveal(Seq::filter);
    if p.len() > 0 {
        let d = p.drop_last();
        assert forall|i: int, j: int| 0 <= i < j < d.len() implies text_lt(
            (#[trigger] d[i]).0,
            (#[trigger] d[j]).0,
        ) by {
            assert(d[i] == p[i] && d[j] == p[j]);
        }
        lemma_drop_rises(d, k);
        let e = drop_param(d, k);
        let w = drop_param(p, k);
        assert forall|i: int| 0 <= i < w.len() implies p.contains(#[trigger] w[i]) by {
            if i < e.len() {
                assert(d.contains(e[i]));
                let n = choose|n: int| 0 <= n < d.len() && d[n] == e[i];
                assert(p[n] == w[i]);
            } else {
                assert(p[p.len() - 1] == w[i]);
            }
        }
        assert forall|i: int, j: int| 0 <= i < j < w.len() implies text_lt(
            (#[trigger] w[i]).0,
            (#[trigger] w[j]).0,
        ) by {
            if j < e.len() {
                assert(text_lt(e[i].0, e[j].0));
            } else {
                assert(d.contains(e[i]));
                let n = choose|n: int| 0 <= n < d.len() && d[n] == e[i];
                assert(text_lt(p[n].0, p[p.len() - 1].0));
            }
        }
    }
}

/// Parameters keep rising keys whatever is set or taken out, and where keys rise
/// each stands once.
pub proof fn law_each_key_stands_once(p: Seq<(Seq<char>, Seq<char>)>, k: Seq<char>, v: Seq<char>)
    requires
        keys_rise(p),
    ensures
        keys_rise(put_param(p, k, v)),
        keys_rise(drop_param(p, k)),
        forall|i: int, j: int|
            0 <= i < j < p.len() ==> (#[trigger] p[i]).0 != (#[trigger] p[j]).0,
{
    lemma_put_rises(p, k, v);
    lemma_drop_rises(p, k);
    assert forall|i: int, j: int| 0 <= i < j < p.len() implies (#[trigger] p[i]).0 != (
    #[trigger] p[j]).0 by {
        assert(text_lt(p[i].0, p[j].0));
        lemma_text_strict(p[i].0);
    }
}

impl View for Params {
    type V = Seq<(Seq<char>, Seq<char>)>;

    closed spec fn view(&self) -> Seq<(Seq<char>, Seq<char>)> {
        pairs(self.entries@)
    }
}

impl Params {
    #[verifier::type_invariant]
    closed spec fn ordered(self) -> bool {
        keys_rise(pairs(self.entries@))
    }

    pub fn new() -> (r: Self)
        ensures
            r@ == Seq::<(Seq<char>, Seq<char>)>::empty(),
    {
        let entries: Vec<(String, String)> = Vec::new();
        proof {
            assert(pairs(entries@) =~= Seq::<(Seq<char>, Seq<char>)>::empty());
        }
        Params { entries }
    }

    /// Sets a parameter.
    pub fn insert(&mut self, k: &str, v: &str)
        ensures
            final(self)@ == put_param(old(self)@, k@, v@),
            keys_rise(final(self)@),
    {
        let ghost p = self@;
        proof {
            use_type_invariant(&*self);
            lemma_put_rises(p, k@, v@);
        }
        let mut entries: Vec<(String, String)> = Vec::new();
        std::mem::swap(&mut entries, &mut self.entries);
        let mut i: usize = entries.len();
        while i > 0 && !same(entries[i - 1].0.as_str(), k) && before(k, entries[i - 1].0.as_str())
            invariant
                i <= entries@.len(),
                p == pairs(entries@),
                forall|j: int|
                    i <= j < p.len() ==> (#[trigger] p[j]).0 != k@ && text_lt(k@, p[j].0),
            decreases i,
        {
            i = i - 1;
        }
        if i > 0 && same(entries[i - 1].0.as_str(), k) {
            entries.set(i - 1, (own(k), own(v)));
            proof {
                lemma_put_param(p, k@, v@, i as int, true);
                assert(pairs(entries@) =~= p.update(i - 1, (k@, v@)));
            }
        } else {
            entries.insert(i, (own(k), own(v)));
            proof {
                lemma_put_param(p, k@, v@, i as int, false);
                assert(pairs(entries@) =~= p.insert(i as int, (k@, v@)));
            }
        }
        self.entries = entries;
    }

    /// The value of a parameter.
    pub fn get(&self, k: &str) -> (r: Option<&str>)
        ensures
            match r {
                Some(v) => param_of(self@, k@) == Some(v@),
                None => param_of(self@, k@) is None,
            },
    {
        let mut i: usize = 0;
        proof {
            assert(self@.skip(0) =~= self@);
        }
        while i < self.entries.len()
            invariant
                i <= self.entries@.len(),
                param_of(self@, k@) == param_of(self@.skip(i as int), k@),
            decreases self.entries@.len() - i,
        {
            let ghost rest = self@.skip(i as int);
            proof {
                assert(rest[0] == (self.entries@[i as int].0@, self.entries@[i as int].1@));
                assert(rest.drop_first() =~= self@.skip(i as int + 1));
            }
            if same(self.entries[i].0.as_str(), k) {
                return Some(self.entries[i].1.as_str());
            }
            i = i + 1;
        }
        None
    }

    /// Takes a parameter out.
    pub fn remove(&mut self, k: &str)
        ensures
            final(self)@ == drop_param(old(self)@, k@),
            keys_rise(final(self)@),
    {
        let ghost all = self@;
        proof {
            use_type_invariant(&*self);
            lemma_drop_rises(all, k@);
        }
        let ghost test = |q: (Seq<char>, Seq<char>)| q.0 != k@;
        let mut out: Vec<(String, String)> = Vec::new();
        let mut i: usize = 0;
        proof {
            reveal(Seq::filter);
            assert(pairs(out@) =~= all.take(0).filter(test));
        }
        while i < self.entries.len()
            invariant
                i <= self.entries@.len(),
                all == pairs(self.entries@),
                test == (|q: (Seq<char>, Seq<char>)| q.0 != k@),
                pairs(out@) == all.take(i as int).filter(test),
            decreases self.entries@.len() - i,
        {
            proof {
                reveal(Seq::filter);
                assert(all.take(i as int + 1).drop_last() =~= all.take(i as int));
                assert(all[i as int] == (self.entries@[i as int].0@, self.entries@[i as int].1@));
            }
            if !same(self.entries[i].0.as_str(), k) {
                let ghost prior = pairs(out@);
                out.push((own(self.entries[i].0.as_str()), own(self.entries[i].1.as_str())));
                proof {
                    assert(pairs(out@) =~= prior.push(all[i as int]));
                }
            }
            i = i + 1;
        }
        proof {
            assert(all.take(i as int) =~= all);
        }
        self.entries = out;
    }

    pub fn copy(&self) -> (r: Params)
        ensures
            r@ == self@,
            keys_rise(r@),
    {
        proof {
            use_type_invariant(self);
        }
        let mut out: Vec<(String, String)> = Vec::new();
        let mut i: usize = 0;
        while i < self.entries.len()
            invariant
                i <= self.entries@.len(),
                out@.len() == i,
                forall|j: int|
                    0 <= j < i ==> (#[trigger] out@[j]).0@ == self.entries@[j].0@ && out@[j].1@
                        == self.entries@[j].1@,
            decreases self.entries@.len() - i,
        {
            out.push((own(self.entries[i].0.as_str()), own(self.entries[i].1.as_str())));
            i = i + 1;
        }
        proof {
            assert(pairs(out@) =~= self@);
        }
        Params { entries: out }
    }
}

/// One parameter in a query.
pub open spec fn param_text(p: (Seq<char>, Seq<char>)) -> Seq<char> {
    encoded(vstd::utf8::encode_utf8(p.0)) + "="@ + encoded(vstd::utf8::encode_utf8(p.1))
}

/// The parameters as a query, in their order.
pub open spec fn query_text(p: Seq<(Seq<char>, Seq<char>)>) -> Seq<char> {
    crate::text::joined(Seq::new(p.len(), |i: int| param_text(p[i])), "&"@)
}

pub fn canonical_query(params: &Params) -> (r: String)
    ensures
        r@ == query_text(params@),
        keys_rise(params@),
{
    proof {
        use_type_invariant(params);
    }
    let mut parts: Vec<String> = Vec::new();
    let mut i: usize = 0;
    while i < params.entries.len()
        invariant
            i <= params.entries@.len(),
            parts@.len() == i,
            forall|j: int| 0 <= j < i ==> (#[trigger] parts@[j])@ == param_text(params@[j]),
        decreases params.entries@.len() - i,
    {
        let mut part = form_encode(params.entries[i].0.as_str());
        part.append("=");
        part.append(form_encode(params.entries[i].1.as_str()).as_str());
        parts.push(part);
        i = i + 1;
    }
    proof {
        assert(views(parts@) =~= Seq::new(params@.len(), |i: int| param_text(params@[i])));
    }
    crate::text::join(parts.as_slice(), "&")
}

/// The HMAC-SHA256 of a message.
pub uninterp spec fn hmac_sha256(key: Seq<u8>, message: Seq<u8>) -> Seq<u8>;

/// `hmac::Hmac<sha2::Sha256>` over key and message. It takes keys of every
/// length; the tag is named, not stated, but for its 32 bytes.
#[verifier::external_body]
fn authenticate(key: &[u8], message: &[u8]) -> (r: Option<Vec<u8>>)
    ensures
        r is Some,
        r->0@ == hmac_sha256(key@, message@),
        r->0@.len() == 32,
{
    let mut mac = <hmac::Hmac<sha2::Sha256> as hmac::Mac>::new_from_slice(key).ok()?;
    hmac::Mac::update(&mut mac, message);
    Some(hmac::Mac::finalize(mac).into_bytes().to_vec())
}

/// Lower-case hexadecimal digit.
pub open spec fn hex_lower(n: int) -> char {
    if n < 10 {
        (48 + n) as u8 as char
    } else {
        (87 + n) as u8 as char
    }
}

/// Two lower-case digits per byte.
pub open spec fn hex_text(bytes: Seq<u8>) -> Seq<char> {
    Seq::new(
        2 * bytes.len(),
        |i: int|
            if i % 2 == 0 {
                hex_lower(bytes[i / 2] as int / 16)
            } else {
                hex_lower(bytes[i / 2] as int % 16)
            },
    )
}

/// `hex::encode`: two lower-case digits per byte, the high half first.
#[verifier::external_body]
fn print_hex(bytes: &[u8]) -> (r: String)
    ensures
        r@ == hex_text(bytes@),
{
    hex::encode(bytes)
}

/// The signature of a query.
pub open spec fn signature(secret: Seq<char>, query: Seq<char>) -> Seq<char> {
    hex_text(hmac_sha256(vstd::utf8::encode_utf8(secret), vstd::utf8::encode_utf8(query)))
}

pub fn sign_query(secret: &str, query_string: &str) -> (r: Result<String, SignError>)
    ensures
        match r {
            Ok(s) => secret@.len() > 0 && s@ == signature(secret@, query_string@),
            Err(e) => secret@.len() == 0 && e == SignError::EmptySecret,
        },
{
    if secret.is_empty() {
        return Err(SignError::EmptySecret);
    }
    match authenticate(secret.as_bytes(), query_string.as_bytes()) {
        Some(tag) => Ok(print_hex(tag.as_slice())),
        None => Err(SignError::InvalidKey),
    }
}

/// The parameters that are signed: the given ones, the time and the window.
pub open spec fn signed_params(
    p: Seq<(Seq<char>, Seq<char>)>,
    timestamp_ms: int,
    recv_window: int,
) -> Seq<(Seq<char>, Seq<char>)> {
    put_param(
        put_param(p, "timestamp"@, int_text(timestamp_ms)),
        "recvWindow"@,
        int_text(recv_window),
    )
}

/// A query and its signature.
pub open spec fn signed_text(query: Seq<char>, secret: Seq<char>) -> Seq<char> {
    query + "&signature="@ + signature(secret, query)
}

pub fn signed_query_string(
    params: &Params,
    secret: &str,
    timestamp_ms: i64,
    recv_window: i64,
) -> (r: Result<String, SignError>)
    ensures
        match r {
            Ok(s) => secret@.len() > 0 && s@ == signed_text(
                query_text(signed_params(params@, timestamp_ms as int, recv_window as int)),
                secret@,
            ),
            Err(e) => secret@.len() == 0 && e == SignError::EmptySecret,
        },
{
    let mut payload = params.copy();
    payload.insert("timestamp", print_i64(timestamp_ms).as_str());
    payload.insert("recvWindow", print_i64(recv_window).as_str());
    let query = canonical_query(&payload);
    match sign_query(secret, query.as_str()) {
        Ok(sig) => {
            let mut out = own(query.as_str());
            out.append("&signature=");
            out.append(sig.as_str());
            Ok(out)
        },
        Err(e) => Err(e),
    }
}

/// The query part does not depend on the secret, and the keys of a signed query
/// rise.
pub proof fn law_secret_stays_out_of_the_query(
    p: Seq<(Seq<char>, Seq<char>)>,
    timestamp_ms: int,
    recv_window: int,
    secret_a: Seq<char>,
    secret_b: Seq<char>,
)
    requires
        keys_rise(p),
    ensures
        ({
            let q = query_text(signed_params(p, timestamp_ms, recv_window));
            let head = q + "&signature="@;
            &&& signed_text(q, secret_a).take(head.len() as int) == head
            &&& signed_text(q, secret_b).take(head.len() as int) == head
            &&& keys_rise(signed_params(p, timestamp_ms, recv_window))
        }),
{
    let q = query_text(signed_params(p, timestamp_ms, recv_window));
    let head = q + "&signature="@;
    assert(signed_text(q, secret_a).take(head.len() as int) =~= head);
    assert(signed_text(q, secret_b).take(head.len() as int) =~= head);
    lemma_put_rises(p, "timestamp"@, int_text(timestamp_ms));
    lemma_put_rises(
        put_param(p, "timestamp"@, int_text(timestamp_ms)),
        "recvWindow"@,
        int_text(recv_window),
    );
}

proof fn lemma_param_at(p: Seq<(Seq<char>, Seq<char>)>, i: int)
    requires
        keys_rise(p),
        0 <= i < p.len(),
    ensures
        param_of(p, p[i].0) == Some(p[i].1),
    decreases i,
{
    if i > 0 {
        let d = p.drop_first();
        law_each_key_stands_once(p, p[i].0, p[i].1);
        assert(p[0].0 != p[i].0);
        assert forall|a: int, b: int| 0 <= a < b < d.len() implies text_lt(
            (#[trigger] d[a]).0,
            (#[trigger] d[b]).0,
        ) by {
            assert(d[a] == p[a + 1] && d[b] == p[b + 1]);
        }
        assert(d[i - 1] == p[i]);
        lemma_param_at(d, i - 1);
    }
}

proof fn lemma_put_entries(
    p: Seq<(Seq<char>, Seq<char>)>,
    k: Seq<char>,
    v: Seq<char>,
    j: int,
)
    requires
        keys_rise(p),
        0 <= j < put_param(p, k, v).len(),
    ensures
        put_param(p, k, v)[j] == (k, v) || (put_param(p, k, v)[j].0 != k && p.contains(
            put_param(p, k, v)[j],
        )),
    decreases p.len(),
{
    let w = put_param(p, k, v);
    law_each_key_stands_once(p, k, v);
    if p.len() > 0 {
        let n = p.len() - 1;
        if p.last().0 == k {
            if j < n {
                assert(w[j] == p[j]);
                assert(p[j].0 != p[n].0);
            }
        } else if text_lt(k, p.last().0) {
            let d = p.drop_last();
            assert forall|a: int, b: int| 0 <= a < b < d.len() implies text_lt(
                (#[trigger] d[a]).0,
                (#[trigger] d[b]).0,
            ) by {
                assert(d[a] == p[a] && d[b] == p[b]);
            }
            if j < w.len() - 1 {
                lemma_put_entries(d, k, v, j);
                assert(w[j] == put_param(d, k, v)[j]);
                if w[j] != (k, v) {
                    let i = choose|i: int| 0 <= i < d.len() && d[i] == w[j];
                    assert(p[i] == w[j]);
                }
            } else {
                assert(w[j] == p[n]);
            }
        } else {
            if j < n + 1 {
                assert(w[j] == p[j]);
                if p[j].0 == k {
                    assert(j < n);
                    assert(text_lt(p[j].0, p[n].0));
                }
            }
        }
    }
}

/// A parameter that was put in is read back, and every other one reads as before.
pub proof fn law_params_read_back(
    p: Seq<(Seq<char>, Seq<char>)>,
    k: Seq<char>,
    v: Seq<char>,
    q: Seq<char>,
)
    requires
        keys_rise(p),
    ensures
        param_of(put_param(p, k, v), k) == Some(v),
        q != k ==> param_of(put_param(p, k, v), q) == param_of(p, q),
        keys_rise(put_param(p, k, v)),
{
    let w = put_param(p, k, v);
    law_each_key_stands_once(p, k, v);
    lemma_put_keeps_keys(p, k, v, q);
    lemma_param_of(w, k);
    lemma_param_of(w, q);
    lemma_param_of(p, q);
    let i = choose|i: int| 0 <= i < w.len() && (#[trigger] w[i]).0 == k;
    lemma_put_entries(p, k, v, i);
    lemma_param_at(w, i);
    if q != k && param_of(w, q) is Some {
        let j = choose|j: int| 0 <= j < w.len() && (#[trigger] w[j]).0 == q;
        lemma_put_entries(p, k, v, j);
        lemma_param_at(w, j);
        let m = choose|m: int| 0 <= m < p.len() && p[m] == w[j];
        lemma_param_at(p, m);
    }
}

} // verus!
