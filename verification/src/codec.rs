//! Durable form of a ledger partition: a length-prefixed text encoding of
//! the entry sequence, with a verified decoder and a round-trip law.
//!
//! One entry is written as
//! `<len(webhook)> ':' webhook <len(server)> ':' server <when> ';'`
//! with every number in canonical decimal; a partition is the concatenation
//! of its entries. The decoder accepts a string exactly when it is such a
//! concatenation (with every number in `u64` range) and returns the entries.

use vstd::prelude::*;

use crate::digits::{spec_dec, spec_parse_u64, u64_to_dec_string, parse_u64_at};
use crate::yaaw::{EntryView, YelledAboutAndWhen};

verus! {

/// Relies on std's `String::push`: appends the given character to the end
/// of the string.
pub assume_specification[ String::push ](s: &mut String, c: char)
    ensures
        final(s)@ == old(s)@.push(c),
;

/// The characters of `s`, in order.
pub(crate) fn str_to_chars(s: &str) -> (r: Vec<char>)
    ensures
        r@ == s@,
{
    let n = s.unicode_len();
    let mut r: Vec<char> = Vec::new();
    let mut i: usize = 0;
    while i < n
        invariant
            0 <= i <= n,
            n == s@.len(),
            r@ =~= s@.take(i as int),
        decreases n - i,
    {
        let c = s.get_char(i);
        r.push(c);
        proof {
            assert(s@.take(i as int + 1) =~= s@.take(i as int).push(s@[i as int]));
        }
        i = i + 1;
    }
    proof {
        assert(s@.take(n as int) =~= s@);
    }
    r
}

/// The characters `v[from .. to]`, as a `String`.
pub(crate) fn extract_string(v: &Vec<char>, from: usize, to: usize) -> (r: String)
    requires
        from <= to <= v@.len(),
    ensures
        r@ == v@.subrange(from as int, to as int),
{
    let mut r = String::new();
    let mut k = from;
    proof {
        assert(v@.subrange(from as int, from as int) =~= Seq::<char>::empty());
    }
    while k < to
        invariant
            from <= k <= to <= v@.len(),
            r@ =~= v@.subrange(from as int, k as int),
        decreases to - k,
    {
        r.push(v[k]);
        proof {
            assert(v@.subrange(from as int, k as int + 1) =~= v@.subrange(
                from as int,
                k as int,
            ).push(v@[k as int]));
        }
        k = k + 1;
    }
    r
}

/// Durable form of one entry.
pub open spec fn spec_encode_entry(e: EntryView) -> Seq<char> {
    spec_dec(e.webhook.len()) + seq![':'] + e.webhook + spec_dec(e.server.len()) + seq![':']
        + e.server + spec_dec(e.when as nat) + seq![';']
}

/// Durable form of a whole partition: its entries, in order.
pub open spec fn spec_encode_ledger(es: Seq<EntryView>) -> Seq<char>
    decreases es.len(),
{
    if es.len() == 0 {
        Seq::empty()
    } else {
        spec_encode_entry(es[0]) + spec_encode_ledger(es.drop_first())
    }
}

/// Both strings of an entry are short enough for their length to be written
/// as a `u64`; true of every entry an executable ledger can hold.
pub open spec fn entry_valid(e: EntryView) -> bool {
    e.webhook.len() <= u64::MAX && e.server.len() <= u64::MAX
}

pub open spec fn ledger_valid(es: Seq<EntryView>) -> bool {
    forall|i: int| 0 <= i < es.len() ==> entry_valid(#[trigger] es[i])
}

/// Decode of one entry at `pos`: `None` when the text there is not the
/// durable form of an entry.
pub open spec fn spec_decode_entry(s: Seq<char>, pos: int) -> Option<(EntryView, int)> {
    match spec_parse_u64(s, pos) {
        None => None,
        Some((lw, p1)) => if p1 < s.len() && s[p1] == ':' && p1 + 1 + lw <= s.len() {
            let w = s.subrange(p1 + 1, p1 + 1 + lw);
            let q = p1 + 1 + lw;
            match spec_parse_u64(s, q) {
                None => None,
                Some((ls, p3)) => if p3 < s.len() && s[p3] == ':' && p3 + 1 + ls <= s.len() {
                    let sv = s.subrange(p3 + 1, p3 + 1 + ls);
                    let q2 = p3 + 1 + ls;
                    match spec_parse_u64(s, q2) {
                        None => None,
                        Some((when, p5)) => if p5 < s.len() && s[p5] == ';' {
                            Some((EntryView { webhook: w, server: sv, when }, p5 + 1))
                        } else {
                            None
                        },
                    }
                } else {
                    None
                },
            }
        } else {
            None
        },
    }
}

/// Decode of a partition from `pos` to the end of the text.
pub open spec fn spec_decode_from(s: Seq<char>, pos: int) -> Option<Seq<EntryView>>
    decreases s.len() - pos when 0 <= pos <= s.len()
{
    if pos == s.len() {
        Some(Seq::empty())
    } else {
        match spec_decode_entry(s, pos) {
            None => None,
            Some((e, p2)) => if !(pos < p2 <= s.len()) {
                None
            } else {
                match spec_decode_from(s, p2) {
                    None => None,
                    Some(rest) => Some(seq![e] + rest),
                }
            },
        }
    }
}

/// Durable form of one entry, as text.
fn encode_entry(e: &YelledAboutAndWhen) -> (r: String)
    ensures
        r@ == spec_encode_entry(e@),
{
    proof {
        reveal_strlit(":");
        reveal_strlit(";");
    }
    let lw: u64 = e.webhook().unicode_len() as u64;
    let ls: u64 = e.server().unicode_len() as u64;
    let mut r = u64_to_dec_string(lw);
    r.append(":");
    r.append(e.webhook());
    r.append(u64_to_dec_string(ls).as_str());
    r.append(":");
    r.append(e.server());
    r.append(u64_to_dec_string(e.when()).as_str());
    r.append(";");
    proof {
        assert(":"@ =~= seq![':']);
        assert(";"@ =~= seq![';']);
        assert(r@ =~= spec_encode_entry(e@));
    }
    r
}

proof fn lemma_encode_snoc(es: Seq<EntryView>, e: EntryView)
    ensures
        spec_encode_ledger(es.push(e)) == spec_encode_ledger(es) + spec_encode_entry(e),
    decreases es.len(),
{
    if es.len() == 0 {
        assert(es.push(e)[0] == e);
        assert(spec_encode_ledger(Seq::<EntryView>::empty()) == Seq::<char>::empty());
        assert(es.push(e).drop_first() =~= Seq::<EntryView>::empty());
        assert(spec_encode_ledger(es.push(e)) =~= spec_encode_ledger(es) + spec_encode_entry(e));
    } else {
        assert(es.push(e)[0] == es[0]);
        assert(es.push(e).drop_first() =~= es.drop_first().push(e));
        lemma_encode_snoc(es.drop_first(), e);
        assert(spec_encode_ledger(es.push(e)) =~= spec_encode_ledger(es) + spec_encode_entry(e));
    }
}

/// Writes a whole partition in its durable form. `load` of what this
/// produces gives the same entries back.
pub fn encode_ledger(entries: &Vec<YelledAboutAndWhen>) -> (r: String)
    ensures
        r@ == spec_encode_ledger(entries.deep_view()),
{
    let n = entries.len();
    let mut r = String::new();
    let mut i: usize = 0;
    proof {
        assert(entries.deep_view().take(0) =~= Seq::<EntryView>::empty());
    }
    while i < n
        invariant
            0 <= i <= n,
            n == entries@.len(),
            r@ == spec_encode_ledger(entries.deep_view().take(i as int)),
        decreases n - i,
    {
        let piece = encode_entry(&entries[i]);
        r.append(piece.as_str());
        proof {
            assert(entries.deep_view()[i as int] == entries[i as int]@);
            assert(entries.deep_view().take(i as int + 1) =~= entries.deep_view().take(
                i as int,
            ).push(entries.deep_view()[i as int]));
            lemma_encode_snoc(entries.deep_view().take(i as int), entries.deep_view()[i as int]);
        }
        i = i + 1;
    }
    proof {
        assert(entries.deep_view().take(n as int) =~= entries.deep_view());
    }
    r
}

/// Reads one entry at `pos`, exactly as `spec_decode_entry` describes.
fn decode_entry_at(v: &Vec<char>, pos: usize) -> (r: Option<(YelledAboutAndWhen, usize)>)
    requires
        pos <= v@.len(),
    ensures
        match r {
            Some((e, p2)) => {
                &&& spec_decode_entry(v@, pos as int) == Some((e@, p2 as int))
                &&& pos < p2 <= v@.len()
            },
            None => spec_decode_entry(v@, pos as int) is None,
        },
{
    let n = v.len();
    let (lw, p1) = match parse_u64_at(v, pos) {
        Some(x) => x,
        None => {
            return None;
        },
    };
    if !(p1 < n && v[p1] == ':') {
        return None;
    }
    if !(lw <= (n - (p1 + 1)) as u64) {
        return None;
    }
    let wl = lw as usize;
    let w = extract_string(v, p1 + 1, p1 + 1 + wl);
    let q = p1 + 1 + wl;
    let (ls, p3) = match parse_u64_at(v, q) {
        Some(x) => x,
        None => {
            return None;
        },
    };
    if !(p3 < n && v[p3] == ':') {
        return None;
    }
    if !(ls <= (n - (p3 + 1)) as u64) {
        return None;
    }
    let sl = ls as usize;
    let sv = extract_string(v, p3 + 1, p3 + 1 + sl);
    let q2 = p3 + 1 + sl;
    let (when, p5) = match parse_u64_at(v, q2) {
        Some(x) => x,
        None => {
            return None;
        },
    };
    if !(p5 < n && v[p5] == ';') {
        return None;
    }
    Some((YelledAboutAndWhen::new(w.as_str(), sv.as_str(), when), p5 + 1))
}

/// Used while decoding: what the whole text decodes to, given what was
/// already read and where the rest starts.
pub open spec fn decode_with_prefix(
    prefix: Seq<EntryView>,
    s: Seq<char>,
    pos: int,
) -> Option<Seq<EntryView>> {
    match spec_decode_from(s, pos) {
        None => None,
        Some(rest) => Some(prefix + rest),
    }
}

/// Reads a whole partition back from its durable form; `None` exactly when
/// the text is not one (a corrupt store, to be treated as fatal, never as an
/// empty ledger).
pub fn decode_ledger(s: &str) -> (r: Option<Vec<YelledAboutAndWhen>>)
    ensures
        match r {
            Some(es) => spec_decode_from(s@, 0) == Some(es.deep_view()),
            None => spec_decode_from(s@, 0) is None,
        },
{
    let v = str_to_chars(s);
    let n = v.len();
    let mut acc: Vec<YelledAboutAndWhen> = Vec::new();
    let mut pos: usize = 0;
    proof {
        assert(acc.deep_view() =~= Seq::<EntryView>::empty());
        if spec_decode_from(s@, 0) is Some {
            assert(decode_with_prefix(acc.deep_view(), s@, 0) == spec_decode_from(s@, 0));
        }
    }
    while pos < n
        invariant
            0 <= pos <= n,
            n == v@.len(),
            v@ == s@,
            spec_decode_from(s@, 0) == decode_with_prefix(acc.deep_view(), s@, pos as int),
        decreases n - pos,
    {
        match decode_entry_at(&v, pos) {
            None => {
                return None;
            },
            Some((e, p2)) => {
                let ghost acc0 = acc.deep_view();
                acc.push(e);
                proof {
                    assert(acc.deep_view() =~= acc0.push(e@));
                    match spec_decode_from(s@, p2 as int) {
                        Option::None => {},
                        Option::Some(rest) => {
                            assert(acc0 + (seq![e@] + rest) =~= acc0.push(e@) + rest);
                        },
                    }
                }
                pos = p2;
            },
        }
    }
    Some(acc)
}

/// One entry decodes back from anywhere its durable form stands in a text.
#[verifier::rlimit(50)]
proof fn lemma_decode_entry_of_encode(s: Seq<char>, pos: int, e: EntryView)
    requires
        entry_valid(e),
        0 <= pos,
        pos + spec_encode_entry(e).len() <= s.len(),
        s.subrange(pos, pos + spec_encode_entry(e).len()) =~= spec_encode_entry(e),
    ensures
        spec_decode_entry(s, pos) == Some((e, pos + spec_encode_entry(e).len())),
{
    let ent = spec_encode_entry(e);
    let ll = ent.len() as int;
    assert forall|j: int| pos <= j < pos + ll implies s[j] == ent[j - pos] by {
        assert(ent[j - pos] == s.subrange(pos, pos + ll)[j - pos]);
    }
    let dw = spec_dec(e.webhook.len());
    let ds = spec_dec(e.server.len());
    let dn = spec_dec(e.when as nat);
    crate::digits::lemma_spec_dec_digits(e.webhook.len());
    crate::digits::lemma_spec_dec_digits(e.server.len());
    crate::digits::lemma_spec_dec_digits(e.when as nat);

    let p1 = pos + dw.len();
    assert forall|k: int| 0 <= k < dw.len() implies s.subrange(pos, p1)[k] == dw[k] by {
        assert(s[pos + k] == ent[k]);
    }
    assert(s.subrange(pos, p1) =~= dw);
    assert(s[p1] == ent[p1 - pos]);
    assert(s[p1] == ':');
    crate::digits::lemma_parse_of_spec_dec(s, pos, e.webhook.len() as u64);
    assert(spec_parse_u64(s, pos) == Some((e.webhook.len() as u64, p1)));

    let wstart = p1 + 1;
    let q = wstart + e.webhook.len();
    assert forall|k: int| 0 <= k < e.webhook.len() implies s.subrange(wstart, q)[k]
        == e.webhook[k] by {
        assert(s[wstart + k] == ent[wstart + k - pos]);
    }
    assert(s.subrange(wstart, q) =~= e.webhook);

    let p3 = q + ds.len();
    assert forall|k: int| 0 <= k < ds.len() implies s.subrange(q, p3)[k] == ds[k] by {
        assert(s[q + k] == ent[q + k - pos]);
    }
    assert(s.subrange(q, p3) =~= ds);
    assert(s[p3] == ent[p3 - pos]);
    assert(s[p3] == ':');
    crate::digits::lemma_parse_of_spec_dec(s, q, e.server.len() as u64);
    assert(spec_parse_u64(s, q) == Some((e.server.len() as u64, p3)));

    let sstart = p3 + 1;
    let q2 = sstart + e.server.len();
    assert forall|k: int| 0 <= k < e.server.len() implies s.subrange(sstart, q2)[k]
        == e.server[k] by {
        assert(s[sstart + k] == ent[sstart + k - pos]);
    }
    assert(s.subrange(sstart, q2) =~= e.server);

    let p5 = q2 + dn.len();
    assert forall|k: int| 0 <= k < dn.len() implies s.subrange(q2, p5)[k] == dn[k] by {
        assert(s[q2 + k] == ent[q2 + k - pos]);
    }
    assert(s.subrange(q2, p5) =~= dn);
    assert(s[p5] == ent[p5 - pos]);
    assert(s[p5] == ';');
    crate::digits::lemma_parse_of_spec_dec(s, q2, e.when);
    assert(spec_parse_u64(s, q2) == Some((e.when, p5)));

    assert(p5 + 1 == pos + ll);
}

/// A partition decodes back from its durable form wherever it stands at the
/// tail of a text.
proof fn lemma_decode_of_encode(s: Seq<char>, pos: int, es: Seq<EntryView>)
    requires
        ledger_valid(es),
        0 <= pos <= s.len(),
        s.subrange(pos, s.len() as int) =~= spec_encode_ledger(es),
    ensures
        spec_decode_from(s, pos) == Some(es),
    decreases es.len(),
{
    if es.len() == 0 {
        assert(pos == s.len());
        assert(es =~= Seq::<EntryView>::empty());
    } else {
        let ent = spec_encode_entry(es[0]);
        let rest = spec_encode_ledger(es.drop_first());
        let tail = s.subrange(pos, s.len() as int);
        assert(tail =~= ent + rest);
        assert forall|k: int| 0 <= k < ent.len() implies s.subrange(pos, pos + ent.len())[k]
            == ent[k] by {
            assert(s[pos + k] == tail[k]);
            assert(tail[k] == (ent + rest)[k]);
        }
        assert(s.subrange(pos, pos + ent.len()) =~= ent);
        lemma_decode_entry_of_encode(s, pos, es[0]);
        let p2 = pos + ent.len();
        assert forall|k: int| 0 <= k < rest.len() implies s.subrange(p2, s.len() as int)[k]
            == rest[k] by {
            assert(s[p2 + k] == tail[ent.len() + k]);
            assert(tail[ent.len() + k] == (ent + rest)[ent.len() + k]);
        }
        assert(s.subrange(p2, s.len() as int) =~= rest);
        assert(ledger_valid(es.drop_first()));
        lemma_decode_of_encode(s, p2, es.drop_first());
        assert(seq![es[0]] + es.drop_first() =~= es);
    }
}

/// Law: writing a partition in its durable form and reading it back gives
/// the same entries, in the same order.
pub proof fn lemma_ledger_round_trip(es: Seq<EntryView>)
    requires
        ledger_valid(es),
    ensures
        spec_decode_from(spec_encode_ledger(es), 0) == Some(es),
{
    let s = spec_encode_ledger(es);
    assert(s.subrange(0, s.len() as int) =~= s);
    lemma_decode_of_encode(s, 0, es);
}

} // verus!
