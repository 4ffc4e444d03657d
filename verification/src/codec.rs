//! The document codec: the persisted form of a ledger.
//!
//! A ledger is written as one JSON-shaped document, and read back by a
//! strict parser that accepts exactly what the writer produces.  The writer
//! is specified against `enc_company` character by character, and the
//! parser's contract states both soundness (whatever it accepts is the
//! encoding of what it returns) and completeness (every encoding is
//! accepted); decoding an encoded ledger therefore yields that ledger back.

use crate::numerals::chars_to_string;
use vstd::prelude::*;

verus! {

/// A document that the strict parser does not accept.
#[derive(Debug, Clone, Copy, PartialEq, Eq, Structural)]
pub enum DecodeError {
    Malformed,
}

/// One character of string content, escaped for the document.
pub open spec fn esc_char(c: char) -> Seq<char> {
    if c == '"' {
        seq!['\\', '"']
    } else if c == '\\' {
        seq!['\\', '\\']
    } else {
        seq![c]
    }
}

/// String content, escaped for the document.
pub open spec fn esc(s: Seq<char>) -> Seq<char>
    decreases s.len(),
{
    if s.len() == 0 {
        Seq::<char>::empty()
    } else {
        esc_char(s.first()) + esc(s.drop_first())
    }
}

/// Escaping works one appended character at a time.
pub proof fn lemma_esc_push(s: Seq<char>, c: char)
    ensures
        esc(s.push(c)) == esc(s) + esc_char(c),
    decreases s.len(),
{
    if s.len() == 0 {
        assert(s.push(c).drop_first() =~= Seq::<char>::empty());
        assert(s.push(c).first() == c);
        assert(esc(Seq::<char>::empty()) =~= Seq::<char>::empty());
        assert(esc(s.push(c)) =~= esc_char(c) + esc(Seq::<char>::empty()));
        assert(esc(s.push(c)) =~= esc(s) + esc_char(c));
    } else {
        lemma_esc_push(s.drop_first(), c);
        assert(s.push(c).drop_first() =~= s.drop_first().push(c));
        assert(s.push(c).first() == s.first());
        assert(esc(s.push(c)) =~= esc(s) + esc_char(c));
    }
}

/// What follows a known head of the remaining input.
proof fn lemma_skip_head(v: Seq<char>, pos: int, head: Seq<char>, tail: Seq<char>)
    requires
        0 <= pos <= v.len(),
        v.subrange(pos, v.len() as int) == head + tail,
    ensures
        pos + head.len() <= v.len(),
        v.subrange(pos + head.len(), v.len() as int) == tail,
        v.subrange(pos, pos + head.len()) == head,
{
    assert((head + tail).len() == v.len() - pos);
    assert(head.len() + tail.len() == v.len() - pos);
    assert forall|j: int| 0 <= j < tail.len() implies v.subrange(
        pos + head.len(),
        v.len() as int,
    )[j] == tail[j] by {
        assert(v.subrange(pos + head.len(), v.len() as int)[j] == v[pos + head.len() + j]);
        assert(v.subrange(pos, v.len() as int)[head.len() + j] == v[pos + head.len() + j]);
        assert(v.subrange(pos, v.len() as int)[head.len() + j] == (head + tail)[head.len() + j]);
        assert((head + tail)[head.len() + j] == tail[j]);
    }
    assert(v.subrange(pos + head.len(), v.len() as int) =~= tail);
    assert forall|j: int| 0 <= j < head.len() implies v.subrange(pos, pos + head.len())[j]
        == head[j] by {
        assert(v.subrange(pos, pos + head.len())[j] == v[pos + j]);
        assert(v.subrange(pos, v.len() as int)[j] == v[pos + j]);
        assert(v.subrange(pos, v.len() as int)[j] == (head + tail)[j]);
    }
    assert(v.subrange(pos, pos + head.len()) =~= head);
}

/// A string of the document: quoted, escaped content.
pub open spec fn enc_str(s: Seq<char>) -> Seq<char> {
    seq!['"'] + esc(s) + seq!['"']
}

/// Appends the characters of `lit` to `out`.
fn push_lit(out: &mut Vec<char>, lit: &str)
    ensures
        final(out)@ == old(out)@ + lit@,
{
    let len = lit.unicode_len();
    let mut i: usize = 0;
    while i < len
        invariant
            len == lit@.len(),
            0 <= i <= len,
            out@ == old(out)@ + lit@.subrange(0, i as int),
        decreases len - i,
    {
        out.push(lit.get_char(i));
        proof {
            assert(out@ =~= old(out)@ + lit@.subrange(0, i + 1));
        }
        i = i + 1;
    }
    proof {
        assert(out@ =~= old(out)@ + lit@);
    }
}

/// Appends the document form of the string `s` to `out`.
fn push_quoted(out: &mut Vec<char>, s: &str)
    ensures
        final(out)@ == old(out)@ + enc_str(s@),
{
    let len = s.unicode_len();
    out.push('"');
    let mut i: usize = 0;
    proof {
        assert(s@.subrange(0, 0) =~= Seq::<char>::empty());
        assert(out@ =~= old(out)@ + seq!['"'] + esc(s@.subrange(0, 0)));
    }
    while i < len
        invariant
            len == s@.len(),
            0 <= i <= len,
            out@ == old(out)@ + seq!['"'] + esc(s@.subrange(0, i as int)),
        decreases len - i,
    {
        proof {
            lemma_esc_push(s@.subrange(0, i as int), s@[i as int]);
            assert(s@.subrange(0, i as int).push(s@[i as int]) =~= s@.subrange(0, i + 1));
        }
        let c = s.get_char(i);
        if c == '"' {
            out.push('\\');
            out.push('"');
        } else if c == '\\' {
            out.push('\\');
            out.push('\\');
        } else {
            out.push(c);
        }
        proof {
            assert(out@ =~= old(out)@ + seq!['"'] + esc(s@.subrange(0, i + 1)));
        }
        i = i + 1;
    }
    out.push('"');
    proof {
        assert(s@.subrange(0, len as int) =~= s@);
        assert(out@ =~= old(out)@ + enc_str(s@));
    }
}

/// Accepts the exact characters of `lit` at `pos`.
fn expect_lit(v: &Vec<char>, pos: usize, lit: &str) -> (r: Option<usize>)
    requires
        pos <= v@.len(),
    ensures
        r matches Some(p2) ==> pos <= p2 <= v@.len() && p2 - pos == lit@.len() && v@.subrange(
            pos as int,
            p2 as int,
        ) == lit@,
        pos + lit@.len() <= v@.len() && v@.subrange(pos as int, pos + lit@.len() as int) == lit@
            ==> r is Some,
{
    let len = lit.unicode_len();
    let vlen = v.len();
    if len > vlen - pos {
        proof {
            if pos + lit@.len() <= v@.len() {
                assert(v@.subrange(pos as int, pos + lit@.len() as int).len() == lit@.len());
            }
        }
        return None;
    }
    let mut i: usize = 0;
    while i < len
        invariant
            len == lit@.len(),
            pos + len <= v@.len(),
            v@.len() == vlen,
            0 <= i <= len,
            forall|j: int| 0 <= j < i ==> v@[pos + j] == lit@[j],
        decreases len - i,
    {
        if v[pos + i] != lit.get_char(i) {
            proof {
                if pos + lit@.len() <= v@.len() && v@.subrange(pos as int, pos + lit@.len() as int)
                    == lit@ {
                    assert(v@.subrange(pos as int, pos + lit@.len() as int)[i as int] == lit@[i as int]);
                }
            }
            return None;
        }
        i = i + 1;
    }
    proof {
        assert(v@.subrange(pos as int, (pos + len) as int) =~= lit@);
    }
    Some(pos + len)
}

/// Parses escaped string content up to and including the closing quote,
/// returning the content and the position after the quote.
#[verifier::rlimit(100)]
fn parse_str_body(v: &Vec<char>, pos: usize) -> (r: Option<(Vec<char>, usize)>)
    requires
        pos <= v@.len(),
    ensures
        r matches Some(cp) ==> pos <= cp.1 <= v@.len() && v@.subrange(pos as int, cp.1 as int)
            == esc(cp.0@) + seq!['"'],
        forall|s: Seq<char>, rest: Seq<char>|
            v@.subrange(pos as int, v@.len() as int) == esc(s) + seq!['"'] + rest ==> (r matches
                Some(cp) && cp.0@ == s && cp.1 == pos + esc(s).len() + 1),
    decreases v@.len() - pos,
{
    if pos >= v.len() {
        proof {
            assert forall|s: Seq<char>, rest: Seq<char>|
                v@.subrange(pos as int, v@.len() as int) != esc(s) + seq!['"'] + rest by {
                assert((esc(s) + seq!['"'] + rest).len() >= 1);
            }
        }
        return None;
    }
    let c = v[pos];
    if c == '"' {
        let content: Vec<char> = Vec::new();
        proof {
            assert(v@.subrange(pos as int, (pos + 1) as int) =~= seq!['"']);
            assert(esc(content@) =~= Seq::<char>::empty());
            assert(esc(content@) + seq!['"'] =~= seq!['"']);
            assert forall|s: Seq<char>, rest: Seq<char>|
                v@.subrange(pos as int, v@.len() as int) == esc(s) + seq!['"']
                    + rest implies s.len() == 0 by {
                if s.len() > 0 {
                    assert((esc(s) + seq!['"'] + rest)[0] == esc_char(s.first())[0]);
                    assert(esc_char(s.first())[0] != '"');
                }
            }
        }
        return Some((content, pos + 1));
    }
    if c == '\\' {
        if pos + 1 >= v.len() {
            proof {
                assert forall|s: Seq<char>, rest: Seq<char>|
                    v@.subrange(pos as int, v@.len() as int) != esc(s) + seq!['"'] + rest by {
                    let suf = esc(s) + seq!['"'] + rest;
                    if v@.subrange(pos as int, v@.len() as int) == suf {
                        assert(suf[0] == '\\');
                        assert(s.len() > 0);
                        assert(suf[0] == esc_char(s.first())[0]);
                        assert(s.first() == '"' || s.first() == '\\');
                        assert(esc_char(s.first()).len() == 2);
                        assert(suf.len() >= 3);
                    }
                }
            }
            return None;
        }
        let c2 = v[pos + 1];
        if c2 == '"' || c2 == '\\' {
            match parse_str_body(v, pos + 2) {
                Some((mut content, p2)) => {
                    let ghost tail = content@;
                    content.insert(0, c2);
                    proof {
                        assert(content@ =~= seq![c2] + tail);
                        assert(esc_char(c2) =~= seq!['\\', c2]);
                        assert(content@.first() == c2 && content@.drop_first() =~= tail);
                        assert(v@.subrange(pos as int, p2 as int) =~= seq!['\\', c2] + v@.subrange(
                            (pos + 2) as int,
                            p2 as int,
                        ));
                        assert(v@.subrange(pos as int, p2 as int) =~= esc(content@) + seq!['"']);
                        assert forall|s: Seq<char>, rest: Seq<char>|
                            v@.subrange(pos as int, v@.len() as int) == esc(s) + seq!['"']
                                + rest implies (s == content@ && p2 == pos + esc(s).len()
                            + 1) by {
                            let suf = esc(s) + seq!['"'] + rest;
                            assert(suf[0] == '\\');
                            assert(s.len() > 0);
                            assert(suf[0] == esc_char(s.first())[0]);
                            assert(s.first() == '"' || s.first() == '\\');
                            assert(esc_char(s.first()) =~= seq!['\\', s.first()]);
                            assert(suf[1] == s.first());
                            assert(s.first() == c2);
                            assert(esc(s) + seq!['"'] + rest =~= esc_char(s.first()) + (esc(
                                s.drop_first(),
                            ) + seq!['"'] + rest));
                            lemma_skip_head(
                                v@,
                                pos as int,
                                esc_char(s.first()),
                                esc(s.drop_first()) + seq!['"'] + rest,
                            );
                            assert(tail == s.drop_first());
                            assert(s =~= seq![c2] + s.drop_first());
                        }
                    }
                    Some((content, p2))
                },
                None => {
                    proof {
                        assert forall|s: Seq<char>, rest: Seq<char>|
                            v@.subrange(pos as int, v@.len() as int) != esc(s) + seq!['"']
                                + rest by {
                            let suf = esc(s) + seq!['"'] + rest;
                            if v@.subrange(pos as int, v@.len() as int) == suf {
                                assert(suf[0] == '\\');
                                assert(s.len() > 0);
                                assert(suf[0] == esc_char(s.first())[0]);
                                assert(s.first() == '"' || s.first() == '\\');
                                assert(esc_char(s.first()) =~= seq!['\\', s.first()]);
                                assert(esc(s) + seq!['"'] + rest =~= esc_char(s.first()) + (esc(
                                    s.drop_first(),
                                ) + seq!['"'] + rest));
                                lemma_skip_head(
                                    v@,
                                    pos as int,
                                    esc_char(s.first()),
                                    esc(s.drop_first()) + seq!['"'] + rest,
                                );
                            }
                        }
                    }
                    None
                },
            }
        } else {
            proof {
                assert forall|s: Seq<char>, rest: Seq<char>|
                    v@.subrange(pos as int, v@.len() as int) != esc(s) + seq!['"'] + rest by {
                    let suf = esc(s) + seq!['"'] + rest;
                    if v@.subrange(pos as int, v@.len() as int) == suf {
                        assert(suf[0] == '\\');
                        assert(s.len() > 0);
                        assert(suf[0] == esc_char(s.first())[0]);
                        assert(s.first() == '"' || s.first() == '\\');
                        assert(esc_char(s.first()) =~= seq!['\\', s.first()]);
                        assert(suf[1] == s.first());
                    }
                }
            }
            None
        }
    } else {
        match parse_str_body(v, pos + 1) {
            Some((mut content, p2)) => {
                let ghost tail = content@;
                content.insert(0, c);
                proof {
                    assert(content@ =~= seq![c] + tail);
                    assert(esc_char(c) =~= seq![c]);
                    assert(content@.first() == c && content@.drop_first() =~= tail);
                    assert(v@.subrange(pos as int, p2 as int) =~= seq![c] + v@.subrange(
                        (pos + 1) as int,
                        p2 as int,
                    ));
                    assert(v@.subrange(pos as int, p2 as int) =~= esc(content@) + seq!['"']);
                    assert forall|s: Seq<char>, rest: Seq<char>|
                        v@.subrange(pos as int, v@.len() as int) == esc(s) + seq!['"']
                            + rest implies (s == content@ && p2 == pos + esc(s).len() + 1) by {
                        let suf = esc(s) + seq!['"'] + rest;
                        assert(suf[0] == c);
                        assert(s.len() > 0);
                        assert(suf[0] == esc_char(s.first())[0]);
                        assert(s.first() == c);
                        assert(esc_char(s.first()) =~= seq![c]);
                        assert(esc(s) + seq!['"'] + rest =~= esc_char(s.first()) + (esc(
                            s.drop_first(),
                        ) + seq!['"'] + rest));
                        lemma_skip_head(
                            v@,
                            pos as int,
                            esc_char(s.first()),
                            esc(s.drop_first()) + seq!['"'] + rest,
                        );
                        assert(tail == s.drop_first());
                        assert(s =~= seq![c] + s.drop_first());
                    }
                }
                Some((content, p2))
            },
            None => {
                proof {
                    assert forall|s: Seq<char>, rest: Seq<char>|
                        v@.subrange(pos as int, v@.len() as int) != esc(s) + seq!['"'] + rest by {
                        let suf = esc(s) + seq!['"'] + rest;
                        if v@.subrange(pos as int, v@.len() as int) == suf {
                            assert(suf[0] == c);
                            assert(s.len() > 0);
                            assert(suf[0] == esc_char(s.first())[0]);
                            assert(s.first() == c);
                            assert(esc_char(s.first()) =~= seq![c]);
                            assert(esc(s) + seq!['"'] + rest =~= esc_char(s.first()) + (esc(
                                s.drop_first(),
                            ) + seq!['"'] + rest));
                            lemma_skip_head(
                                v@,
                                pos as int,
                                esc_char(s.first()),
                                esc(s.drop_first()) + seq!['"'] + rest,
                            );
                        }
                    }
                }
                None
            },
        }
    }
}

/// Parses one document string at `pos`: a quote, escaped content, a quote.
fn parse_string(v: &Vec<char>, pos: usize) -> (r: Option<(String, usize)>)
    requires
        pos <= v@.len(),
    ensures
        r matches Some(sp) ==> pos <= sp.1 <= v@.len() && v@.subrange(pos as int, sp.1 as int)
            == enc_str(sp.0@),
        forall|s: Seq<char>, rest: Seq<char>|
            v@.subrange(pos as int, v@.len() as int) == enc_str(s) + rest ==> (r matches Some(sp)
                && sp.0@ == s && sp.1 == pos + enc_str(s).len()),
{
    proof {
        assert forall|s: Seq<char>, rest: Seq<char>|
            v@.subrange(pos as int, v@.len() as int) == enc_str(s) + rest implies pos < v@.len()
            && v@[pos as int] == '"' && v@.subrange((pos + 1) as int, v@.len() as int) == esc(s)
            + seq!['"'] + rest by {
            assert((enc_str(s) + rest)[0] == '"');
            assert(enc_str(s) + rest =~= seq!['"'] + (esc(s) + seq!['"'] + rest));
            lemma_skip_head(v@, pos as int, seq!['"'], esc(s) + seq!['"'] + rest);
        }
    }
    if pos >= v.len() {
        return None;
    }
    if v[pos] != '"' {
        return None;
    }
    match parse_str_body(v, pos + 1) {
        Some((content, p2)) => {
            let s = chars_to_string(&content);
            proof {
                assert(v@.subrange(pos as int, p2 as int) =~= seq!['"'] + v@.subrange(
                    (pos + 1) as int,
                    p2 as int,
                ));
                assert(v@.subrange(pos as int, p2 as int) =~= enc_str(content@));
            }
            Some((s, p2))
        },
        None => None,
    }
}

/// One or more document strings, comma-separated.
pub open spec fn enc_str_items(l: Seq<Seq<char>>) -> Seq<char>
    decreases l.len(),
{
    if l.len() == 0 {
        Seq::<char>::empty()
    } else if l.len() == 1 {
        enc_str(l.first())
    } else {
        enc_str(l.first()) + seq![','] + enc_str_items(l.drop_first())
    }
}

/// A list of document strings in brackets.
pub open spec fn enc_str_list(l: Seq<Seq<char>>) -> Seq<char> {
    seq!['['] + enc_str_items(l) + seq![']']
}

/// Encoding items works one appended string at a time.
pub proof fn lemma_enc_items_push(l: Seq<Seq<char>>, x: Seq<char>)
    ensures
        l.len() == 0 ==> enc_str_items(l.push(x)) == enc_str(x),
        l.len() > 0 ==> enc_str_items(l.push(x)) == enc_str_items(l) + seq![','] + enc_str(x),
    decreases l.len(),
{
    if l.len() == 0 {
        assert(l.push(x).len() == 1);
        assert(l.push(x).first() == x);
    } else {
        lemma_enc_items_push(l.drop_first(), x);
        assert(l.push(x).drop_first() =~= l.drop_first().push(x));
        assert(l.push(x).first() == l.first());
        if l.len() == 1 {
            assert(enc_str_items(l.push(x)) =~= enc_str_items(l) + seq![','] + enc_str(x));
        } else {
            assert(enc_str_items(l.push(x)) =~= enc_str_items(l) + seq![','] + enc_str(x));
        }
    }
}

/// Appends the document form of the string list to `out`.
fn push_str_list(out: &mut Vec<char>, l: &Vec<String>)
    ensures
        final(out)@ == old(out)@ + enc_str_list(crate::text::strs_view(l@)),
{
    let ghost lv = crate::text::strs_view(l@);
    out.push('[');
    let mut i: usize = 0;
    proof {
        assert(lv.subrange(0, 0) =~= Seq::<Seq<char>>::empty());
        assert(out@ =~= old(out)@ + seq!['['] + enc_str_items(lv.subrange(0, 0)));
    }
    while i < l.len()
        invariant
            lv == crate::text::strs_view(l@),
            lv.len() == l@.len(),
            0 <= i <= lv.len(),
            out@ == old(out)@ + seq!['['] + enc_str_items(lv.subrange(0, i as int)),
        decreases lv.len() - i,
    {
        proof {
            lemma_enc_items_push(lv.subrange(0, i as int), lv[i as int]);
            assert(lv.subrange(0, i as int).push(lv[i as int]) =~= lv.subrange(0, i + 1));
            assert(lv[i as int] == l@[i as int]@);
        }
        if i > 0 {
            out.push(',');
        }
        push_quoted(out, l[i].as_str());
        proof {
            assert(out@ =~= old(out)@ + seq!['['] + enc_str_items(lv.subrange(0, i + 1)));
        }
        i = i + 1;
    }
    out.push(']');
    proof {
        assert(lv.subrange(0, lv.len() as int) =~= lv);
        assert(out@ =~= old(out)@ + enc_str_list(lv));
    }
}

/// Parses one or more comma-separated strings up to and including the
/// closing bracket.
#[verifier::rlimit(100)]
fn parse_str_items(v: &Vec<char>, pos: usize) -> (r: Option<(Vec<String>, usize)>)
    requires
        pos <= v@.len(),
    ensures
        r matches Some(lp) ==> pos <= lp.1 <= v@.len() && lp.0@.len() >= 1 && v@.subrange(
            pos as int,
            lp.1 as int,
        ) == enc_str_items(crate::text::strs_view(lp.0@)) + seq![']'],
        forall|l: Seq<Seq<char>>, rest: Seq<char>|
            l.len() >= 1 && v@.subrange(pos as int, v@.len() as int) == enc_str_items(l)
                + seq![']'] + rest ==> (r matches Some(lp) && crate::text::strs_view(lp.0@) == l
                && lp.1 == pos + enc_str_items(l).len() + 1),
    decreases v@.len() - pos,
{
    proof {
        assert forall|l: Seq<Seq<char>>, rest: Seq<char>|
            l.len() >= 1 && v@.subrange(pos as int, v@.len() as int) == enc_str_items(l)
                + seq![']'] + rest implies v@.subrange(pos as int, v@.len() as int) == enc_str(
            l.first(),
        ) + (if l.len() == 1 {
            seq![']'] + rest
        } else {
            seq![','] + enc_str_items(l.drop_first()) + seq![']'] + rest
        }) by {
            if l.len() == 1 {
                assert(enc_str_items(l) + seq![']'] + rest =~= enc_str(l.first()) + (seq![']']
                    + rest));
            } else {
                assert(enc_str_items(l) + seq![']'] + rest =~= enc_str(l.first()) + (seq![',']
                    + enc_str_items(l.drop_first()) + seq![']'] + rest));
            }
        }
    }
    match parse_string(v, pos) {
        None => None,
        Some((s0, p1)) => {
            proof {
                assert forall|l: Seq<Seq<char>>, rest: Seq<char>|
                    l.len() >= 1 && v@.subrange(pos as int, v@.len() as int) == enc_str_items(l)
                        + seq![']'] + rest implies s0@ == l.first() && p1 < v@.len() && v@.subrange(
                    p1 as int,
                    v@.len() as int,
                ) == (if l.len() == 1 {
                    seq![']'] + rest
                } else {
                    seq![','] + enc_str_items(l.drop_first()) + seq![']'] + rest
                }) && v@[p1 as int] == (if l.len() == 1 {
                    ']'
                } else {
                    ','
                }) by {
                    let tail: Seq<char> = if l.len() == 1 {
                        seq![']'] + rest
                    } else {
                        seq![','] + enc_str_items(l.drop_first()) + seq![']'] + rest
                    };
                    lemma_skip_head(v@, pos as int, enc_str(l.first()), tail);
                    assert(v@.subrange(p1 as int, v@.len() as int)[0] == tail[0]);
                    assert(v@[p1 as int] == tail[0]);
                }
            }
            if p1 >= v.len() {
                return None;
            }
            let c = v[p1];
            if c == ',' {
                match parse_str_items(v, p1 + 1) {
                    None => {
                        proof {
                            assert forall|l: Seq<Seq<char>>, rest: Seq<char>|
                                !(l.len() >= 1 && v@.subrange(pos as int, v@.len() as int)
                                    == enc_str_items(l) + seq![']'] + rest) by {
                                if l.len() >= 1 && v@.subrange(pos as int, v@.len() as int)
                                    == enc_str_items(l) + seq![']'] + rest {
                                    assert(l.len() >= 2);
                                    assert(v@.subrange(p1 as int, v@.len() as int) =~= seq![',']
                                        + (enc_str_items(l.drop_first()) + seq![']'] + rest));
                                    lemma_skip_head(
                                        v@,
                                        p1 as int,
                                        seq![','],
                                        enc_str_items(l.drop_first()) + seq![']'] + rest,
                                    );
                                }
                            }
                        }
                        None
                    },
                    Some((mut items, p2)) => {
                        let ghost tail_items = items@;
                        items.insert(0, s0);
                        proof {
                            assert(items@ =~= seq![s0] + tail_items);
                            let iv = crate::text::strs_view(items@);
                            assert(iv.first() == s0@ && iv.drop_first() =~= crate::text::strs_view(
                                tail_items,
                            ));
                            assert(iv.len() >= 2);
                            assert(v@.subrange(pos as int, p2 as int) =~= enc_str(s0@) + seq![',']
                                + (enc_str_items(crate::text::strs_view(tail_items)) + seq![']']));
                            assert(enc_str_items(iv) =~= enc_str(s0@) + seq![','] + enc_str_items(
                                crate::text::strs_view(tail_items),
                            ));
                            assert(v@.subrange(pos as int, p2 as int) =~= enc_str_items(iv)
                                + seq![']']);
                            assert forall|l: Seq<Seq<char>>, rest: Seq<char>|
                                l.len() >= 1 && v@.subrange(pos as int, v@.len() as int)
                                    == enc_str_items(l) + seq![']'] + rest implies (iv == l && p2
                                == pos + enc_str_items(l).len() + 1) by {
                                assert(l.len() >= 2);
                                assert(v@.subrange(pos as int, v@.len() as int) == enc_str(
                                    l.first(),
                                ) + (seq![','] + enc_str_items(l.drop_first()) + seq![']'] + rest));
                                assert(s0@ == l.first());
                                assert(p1 == pos + enc_str(l.first()).len());
                                assert(v@.subrange(p1 as int, v@.len() as int) =~= seq![','] + (
                                enc_str_items(l.drop_first()) + seq![']'] + rest));
                                lemma_skip_head(
                                    v@,
                                    p1 as int,
                                    seq![','],
                                    enc_str_items(l.drop_first()) + seq![']'] + rest,
                                );
                                assert(v@.subrange((p1 + 1) as int, v@.len() as int)
                                    == enc_str_items(l.drop_first()) + seq![']'] + rest);
                                assert(crate::text::strs_view(tail_items) == l.drop_first());
                                assert(p2 == (p1 + 1) + enc_str_items(l.drop_first()).len() + 1);
                                assert(enc_str_items(l) =~= enc_str(l.first()) + seq![',']
                                    + enc_str_items(l.drop_first()));
                                assert(iv.len() == l.len());
                                assert forall|k: int| 0 <= k < l.len() implies iv[k] == l[k] by {
                                    if k == 0 {
                                        assert(iv[0] == iv.first());
                                        assert(l[0] == l.first());
                                    } else {
                                        assert(iv[k] == iv.drop_first()[k - 1]);
                                        assert(l[k] == l.drop_first()[k - 1]);
                                        assert(iv.drop_first()[k - 1] == crate::text::strs_view(
                                            tail_items,
                                        )[k - 1]);
                                    }
                                }
                                assert(iv =~= l);
                            }
                        }
                        Some((items, p2))
                    },
                }
            } else if c == ']' {
                let mut items: Vec<String> = Vec::new();
                items.push(s0);
                proof {
                    let iv = crate::text::strs_view(items@);
                    assert(iv =~= seq![s0@]);
                    assert(iv.first() == s0@ && iv.len() == 1);
                    assert(enc_str_items(iv) == enc_str(s0@));
                    assert(v@.subrange(pos as int, (p1 + 1) as int) =~= enc_str(s0@) + seq![']']);
                    assert forall|l: Seq<Seq<char>>, rest: Seq<char>|
                        l.len() >= 1 && v@.subrange(pos as int, v@.len() as int) == enc_str_items(
                            l,
                        ) + seq![']'] + rest implies (iv == l && p1 + 1 == pos + enc_str_items(
                        l,
                    ).len() + 1) by {
                        assert(l.len() == 1);
                        assert(iv =~= l);
                    }
                }
                Some((items, p1 + 1))
            } else {
                proof {
                    assert forall|l: Seq<Seq<char>>, rest: Seq<char>|
                        !(l.len() >= 1 && v@.subrange(pos as int, v@.len() as int)
                            == enc_str_items(l) + seq![']'] + rest) by {}
                }
                None
            }
        },
    }
}

/// Parses a bracketed list of strings at `pos`.
fn parse_str_list(v: &Vec<char>, pos: usize) -> (r: Option<(Vec<String>, usize)>)
    requires
        pos <= v@.len(),
    ensures
        r matches Some(lp) ==> pos <= lp.1 <= v@.len() && v@.subrange(pos as int, lp.1 as int)
            == enc_str_list(crate::text::strs_view(lp.0@)),
        forall|l: Seq<Seq<char>>, rest: Seq<char>|
            v@.subrange(pos as int, v@.len() as int) == enc_str_list(l) + rest ==> (r matches Some(
                lp,
            ) && crate::text::strs_view(lp.0@) == l && lp.1 == pos + enc_str_list(l).len()),
{
    proof {
        assert forall|l: Seq<Seq<char>>, rest: Seq<char>|
            v@.subrange(pos as int, v@.len() as int) == enc_str_list(l) + rest implies pos
            < v@.len() && v@[pos as int] == '[' && v@.subrange((pos + 1) as int, v@.len() as int)
            == enc_str_items(l) + seq![']'] + rest by {
            assert(enc_str_list(l) + rest =~= seq!['['] + (enc_str_items(l) + seq![']'] + rest));
            assert((seq!['['] + (enc_str_items(l) + seq![']'] + rest))[0] == '[');
            lemma_skip_head(v@, pos as int, seq!['['], enc_str_items(l) + seq![']'] + rest);
        }
    }
    if pos >= v.len() || v[pos] != '[' {
        return None;
    }
    if pos + 1 < v.len() && v[pos + 1] == ']' {
        let items: Vec<String> = Vec::new();
        proof {
            let iv = crate::text::strs_view(items@);
            assert(iv =~= Seq::<Seq<char>>::empty());
            assert(enc_str_items(iv) =~= Seq::<char>::empty());
            assert(v@.subrange(pos as int, (pos + 2) as int) =~= enc_str_list(iv));
            assert forall|l: Seq<Seq<char>>, rest: Seq<char>|
                v@.subrange(pos as int, v@.len() as int) == enc_str_list(l) + rest implies (iv == l
                && pos + 2 == pos + enc_str_list(l).len()) by {
                assert(v@.subrange((pos + 1) as int, v@.len() as int) == enc_str_items(l)
                    + seq![']'] + rest);
                if l.len() >= 1 {
                    assert((enc_str_items(l) + seq![']'] + rest)[0] == enc_str(l.first())[0]);
                    assert(enc_str(l.first())[0] == '"');
                    assert(v@[(pos + 1) as int] == '"');
                }
                assert(iv =~= l);
            }
        }
        return Some((items, pos + 2));
    }
    match parse_str_items(v, pos + 1) {
        None => {
            proof {
                assert forall|l: Seq<Seq<char>>, rest: Seq<char>|
                    v@.subrange(pos as int, v@.len() as int) != enc_str_list(l) + rest by {
                    if v@.subrange(pos as int, v@.len() as int) == enc_str_list(l) + rest {
                        assert(v@.subrange((pos + 1) as int, v@.len() as int) == enc_str_items(l)
                            + seq![']'] + rest);
                        if l.len() == 0 {
                            assert(enc_str_items(l).len() == 0);
                            assert((enc_str_items(l) + seq![']'] + rest)[0] == ']');
                            assert(v@[(pos + 1) as int] == ']');
                            assert(pos + 1 < v@.len());
                            assert(false);
                        } else {
                            assert(false);
                        }
                    }
                }
            }
            None
        },
        Some((items, p2)) => {
            proof {
                assert(v@.subrange(pos as int, p2 as int) =~= seq!['['] + v@.subrange(
                    (pos + 1) as int,
                    p2 as int,
                ));
                assert(v@.subrange(pos as int, p2 as int) =~= enc_str_list(
                    crate::text::strs_view(items@),
                ));
                assert forall|l: Seq<Seq<char>>, rest: Seq<char>|
                    v@.subrange(pos as int, v@.len() as int) == enc_str_list(l)
                        + rest implies (crate::text::strs_view(items@) == l && p2 == pos
                    + enc_str_list(l).len()) by {
                    assert(v@.subrange((pos + 1) as int, v@.len() as int) == enc_str_items(l)
                        + seq![']'] + rest);
                    if l.len() == 0 {
                        assert(enc_str_items(l).len() == 0);
                        assert((enc_str_items(l) + seq![']'] + rest)[0] == ']');
                        assert(v@[(pos + 1) as int] == ']');
                        assert(pos + 1 < v@.len());
                        assert(false);
                    }
                }
            }
            Some((items, p2))
        },
    }
}

/// The stored text of an account type: `d`, `c`, or empty for none yet.
pub open spec fn enc_type(t: Option<crate::account::AccountType>) -> Seq<char> {
    match t {
        None => Seq::<char>::empty(),
        Some(crate::account::AccountType::Debit) => seq!['d'],
        Some(crate::account::AccountType::Credit) => seq!['c'],
    }
}

/// The document form of one account.
#[verifier::opaque]
pub open spec fn enc_account(a: crate::account::AccountV) -> Seq<char> {
    "{\"id\":"@ + enc_str(a.id) + ",\"subaccounts\":"@ + enc_str_list(a.subaccounts)
        + ",\"name\":"@ + enc_str(a.name) + ",\"type\":"@ + enc_str(enc_type(a.account_type))
        + ",\"transactions\":"@ + enc_str_list(a.transactions) + ",\"parent\":"@ + enc_str(a.parent)
        + "}"@
}

/// The document form of one transaction.
#[verifier::opaque]
pub open spec fn enc_transaction(t: crate::transaction::TransactionV) -> Seq<char> {
    "{\"id\":"@ + enc_str(t.id) + ",\"credit\":"@ + enc_str(t.credit) + ",\"debit\":"@ + enc_str(
        t.debit,
    ) + ",\"amount\":"@ + enc_str(crate::amount::amount_chars(t.amount.cents as nat)) + ",\"memo\":"@
        + enc_str(t.memo) + ",\"date\":"@ + enc_str(crate::date::date_chars(t.date)) + "}"@
}

/// One or more account records, comma-separated.
pub open spec fn enc_account_items(l: Seq<crate::account::AccountV>) -> Seq<char>
    decreases l.len(),
{
    if l.len() == 0 {
        Seq::<char>::empty()
    } else if l.len() == 1 {
        enc_account(l.first())
    } else {
        enc_account(l.first()) + seq![','] + enc_account_items(l.drop_first())
    }
}

/// A bracketed list of account records.
pub open spec fn enc_account_list(l: Seq<crate::account::AccountV>) -> Seq<char> {
    seq!['['] + enc_account_items(l) + seq![']']
}

/// One or more transaction records, comma-separated.
pub open spec fn enc_transaction_items(l: Seq<crate::transaction::TransactionV>) -> Seq<char>
    decreases l.len(),
{
    if l.len() == 0 {
        Seq::<char>::empty()
    } else if l.len() == 1 {
        enc_transaction(l.first())
    } else {
        enc_transaction(l.first()) + seq![','] + enc_transaction_items(l.drop_first())
    }
}

/// A bracketed list of transaction records.
pub open spec fn enc_transaction_list(l: Seq<crate::transaction::TransactionV>) -> Seq<char> {
    seq!['['] + enc_transaction_items(l) + seq![']']
}

/// The document form of a whole ledger.
pub open spec fn enc_company(c: crate::company::CompanyV) -> Seq<char> {
    "{\"accounts\":"@ + enc_account_list(c.accounts) + ",\"transactions\":"@ + enc_transaction_list(
        c.transactions,
    ) + "}"@
}

/// Encoding account items works one appended record at a time.
#[verifier::rlimit(100)]
#[verifier::spinoff_prover]
proof fn lemma_enc_account_items_push(l: Seq<crate::account::AccountV>, x: crate::account::AccountV)
    ensures
        l.len() == 0 ==> enc_account_items(l.push(x)) == enc_account(x),
        l.len() > 0 ==> enc_account_items(l.push(x)) == enc_account_items(l) + seq![',']
            + enc_account(x),
    decreases l.len(),
{
    if l.len() == 0 {
        assert(l.push(x).len() == 1);
        assert(l.push(x).first() == x);
    } else {
        lemma_enc_account_items_push(l.drop_first(), x);
        assert(l.push(x).drop_first() =~= l.drop_first().push(x));
        assert(l.push(x).first() == l.first());
        assert(enc_account_items(l.push(x)) =~= enc_account_items(l) + seq![','] + enc_account(x));
    }
}

/// Encoding transaction items works one appended record at a time.
#[verifier::rlimit(100)]
#[verifier::spinoff_prover]
proof fn lemma_enc_transaction_items_push(
    l: Seq<crate::transaction::TransactionV>,
    x: crate::transaction::TransactionV,
)
    ensures
        l.len() == 0 ==> enc_transaction_items(l.push(x)) == enc_transaction(x),
        l.len() > 0 ==> enc_transaction_items(l.push(x)) == enc_transaction_items(l) + seq![',']
            + enc_transaction(x),
    decreases l.len(),
{
    if l.len() == 0 {
        assert(l.push(x).len() == 1);
        assert(l.push(x).first() == x);
    } else {
        lemma_enc_transaction_items_push(l.drop_first(), x);
        assert(l.push(x).drop_first() =~= l.drop_first().push(x));
        assert(l.push(x).first() == l.first());
        assert(enc_transaction_items(l.push(x)) =~= enc_transaction_items(l) + seq![',']
            + enc_transaction(x));
    }
}

/// Appends the document form of one account to `out`.
fn push_account(out: &mut Vec<char>, a: &crate::account::Account)
    ensures
        final(out)@ == old(out)@ + enc_account(a@),
{
    push_lit(out, "{\"id\":");
    push_quoted(out, a.id.as_str());
    push_lit(out, ",\"subaccounts\":");
    push_str_list(out, &a.subaccounts);
    push_lit(out, ",\"name\":");
    push_quoted(out, a.name.as_str());
    push_lit(out, ",\"type\":");
    out.push('"');
    match a.account_type {
        Some(crate::account::AccountType::Debit) => out.push('d'),
        Some(crate::account::AccountType::Credit) => out.push('c'),
        None => {},
    }
    out.push('"');
    proof {
        let t = enc_type(a.account_type);
        assert(esc(Seq::<char>::empty()) =~= Seq::<char>::empty());
        assert(esc(t) =~= t) by {
            if t.len() == 1 {
                assert(t.drop_first() =~= Seq::<char>::empty());
                assert(esc_char(t.first()) =~= seq![t.first()]);
            }
        }
    }
    push_lit(out, ",\"transactions\":");
    push_str_list(out, &a.transactions);
    push_lit(out, ",\"parent\":");
    push_quoted(out, a.parent.as_str());
    push_lit(out, "}");
    proof {
        reveal(enc_account);
        assert(final(out)@ =~= old(out)@ + enc_account(a@));
    }
}

/// Appends the document form of one transaction to `out`.
fn push_transaction(out: &mut Vec<char>, t: &crate::transaction::Transaction)
    ensures
        final(out)@ == old(out)@ + enc_transaction(t@),
{
    push_lit(out, "{\"id\":");
    push_quoted(out, t.id.as_str());
    push_lit(out, ",\"credit\":");
    push_quoted(out, t.credit.as_str());
    push_lit(out, ",\"debit\":");
    push_quoted(out, t.debit.as_str());
    push_lit(out, ",\"amount\":");
    let amt = t.amount.format();
    push_quoted(out, amt.as_str());
    push_lit(out, ",\"memo\":");
    push_quoted(out, t.memo.as_str());
    push_lit(out, ",\"date\":");
    let ds = t.date.format();
    push_quoted(out, ds.as_str());
    push_lit(out, "}");
    proof {
        reveal(enc_transaction);
        assert(final(out)@ =~= old(out)@ + enc_transaction(t@));
    }
}

/// Appends the document form of the account list to `out`.
fn push_account_list(out: &mut Vec<char>, l: &Vec<crate::account::Account>)
    ensures
        final(out)@ == old(out)@ + enc_account_list(crate::sorting::accounts_view(l@)),
{
    let ghost lv = crate::sorting::accounts_view(l@);
    out.push('[');
    let mut i: usize = 0;
    proof {
        assert(lv.subrange(0, 0) =~= Seq::<crate::account::AccountV>::empty());
        assert(out@ =~= old(out)@ + seq!['['] + enc_account_items(lv.subrange(0, 0)));
    }
    while i < l.len()
        invariant
            lv == crate::sorting::accounts_view(l@),
            lv.len() == l@.len(),
            0 <= i <= lv.len(),
            out@ == old(out)@ + seq!['['] + enc_account_items(lv.subrange(0, i as int)),
        decreases lv.len() - i,
    {
        proof {
            lemma_enc_account_items_push(lv.subrange(0, i as int), lv[i as int]);
            assert(lv.subrange(0, i as int).push(lv[i as int]) =~= lv.subrange(0, i + 1));
            assert(lv[i as int] == l@[i as int]@);
        }
        if i > 0 {
            out.push(',');
        }
        push_account(out, &l[i]);
        proof {
            assert(out@ =~= old(out)@ + seq!['['] + enc_account_items(lv.subrange(0, i + 1)));
        }
        i = i + 1;
    }
    out.push(']');
    proof {
        assert(lv.subrange(0, lv.len() as int) =~= lv);
        assert(out@ =~= old(out)@ + enc_account_list(lv));
    }
}

/// Appends the document form of the transaction list to `out`.
fn push_transaction_list(out: &mut Vec<char>, l: &Vec<crate::transaction::Transaction>)
    ensures
        final(out)@ == old(out)@ + enc_transaction_list(crate::sorting::transactions_view(l@)),
{
    let ghost lv = crate::sorting::transactions_view(l@);
    out.push('[');
    let mut i: usize = 0;
    proof {
        assert(lv.subrange(0, 0) =~= Seq::<crate::transaction::TransactionV>::empty());
        assert(out@ =~= old(out)@ + seq!['['] + enc_transaction_items(lv.subrange(0, 0)));
    }
    while i < l.len()
        invariant
            lv == crate::sorting::transactions_view(l@),
            lv.len() == l@.len(),
            0 <= i <= lv.len(),
            out@ == old(out)@ + seq!['['] + enc_transaction_items(lv.subrange(0, i as int)),
        decreases lv.len() - i,
    {
        proof {
            lemma_enc_transaction_items_push(lv.subrange(0, i as int), lv[i as int]);
            assert(lv.subrange(0, i as int).push(lv[i as int]) =~= lv.subrange(0, i + 1));
            assert(lv[i as int] == l@[i as int]@);
        }
        if i > 0 {
            out.push(',');
        }
        push_transaction(out, &l[i]);
        proof {
            assert(out@ =~= old(out)@ + seq!['['] + enc_transaction_items(lv.subrange(0, i + 1)));
        }
        i = i + 1;
    }
    out.push(']');
    proof {
        assert(lv.subrange(0, lv.len() as int) =~= lv);
        assert(out@ =~= old(out)@ + enc_transaction_list(lv));
    }
}

/// The input two subranges away, joined.
proof fn lemma_join(v: Seq<char>, a: int, b: int, c: int)
    requires
        0 <= a <= b <= c <= v.len(),
    ensures
        v.subrange(a, c) == v.subrange(a, b) + v.subrange(b, c),
{
    assert(v.subrange(a, c) =~= v.subrange(a, b) + v.subrange(b, c));
}

/// What follows the opening key of an account record, field by field.
spec fn acct_t2(a: crate::account::AccountV, rest: Seq<char>) -> Seq<char> {
    ",\"subaccounts\":"@ + acct_t3(a, rest)
}

spec fn acct_t3(a: crate::account::AccountV, rest: Seq<char>) -> Seq<char> {
    enc_str_list(a.subaccounts) + acct_t4(a, rest)
}

spec fn acct_t4(a: crate::account::AccountV, rest: Seq<char>) -> Seq<char> {
    ",\"name\":"@ + acct_t5(a, rest)
}

spec fn acct_t5(a: crate::account::AccountV, rest: Seq<char>) -> Seq<char> {
    enc_str(a.name) + acct_t6(a, rest)
}

spec fn acct_t6(a: crate::account::AccountV, rest: Seq<char>) -> Seq<char> {
    ",\"type\":"@ + acct_t7(a, rest)
}

spec fn acct_t7(a: crate::account::AccountV, rest: Seq<char>) -> Seq<char> {
    enc_str(enc_type(a.account_type)) + acct_t8(a, rest)
}

spec fn acct_t8(a: crate::account::AccountV, rest: Seq<char>) -> Seq<char> {
    ",\"transactions\":"@ + acct_t9(a, rest)
}

spec fn acct_t9(a: crate::account::AccountV, rest: Seq<char>) -> Seq<char> {
    enc_str_list(a.transactions) + acct_t10(a, rest)
}

spec fn acct_t10(a: crate::account::AccountV, rest: Seq<char>) -> Seq<char> {
    ",\"parent\":"@ + acct_t11(a, rest)
}

spec fn acct_t11(a: crate::account::AccountV, rest: Seq<char>) -> Seq<char> {
    enc_str(a.parent) + ("}"@ + rest)
}

/// Where each field of an encoded account record stands in the input.
#[verifier::rlimit(100)]
#[verifier::spinoff_prover]
proof fn lemma_account_fields(
    v: Seq<char>,
    pos: int,
    a: crate::account::AccountV,
    rest: Seq<char>,
)
    requires
        0 <= pos <= v.len(),
        v.subrange(pos, v.len() as int) == enc_account(a) + rest,
    ensures
        v.subrange(pos, v.len() as int) == "{\"id\":"@ + (enc_str(a.id) + acct_t2(a, rest)),
        v.subrange(pos + "{\"id\":"@.len(), v.len() as int) == enc_str(a.id) + acct_t2(a, rest),
        v.subrange(
            pos + "{\"id\":"@.len() + enc_str(a.id).len(),
            v.len() as int,
        ) == ",\"subaccounts\":"@ + acct_t3(a, rest),
        v.subrange(
            pos + "{\"id\":"@.len() + enc_str(a.id).len() + ",\"subaccounts\":"@.len(),
            v.len() as int,
        ) == enc_str_list(a.subaccounts) + acct_t4(a, rest),
        v.subrange(
            pos + "{\"id\":"@.len() + enc_str(a.id).len() + ",\"subaccounts\":"@.len()
                + enc_str_list(a.subaccounts).len(),
            v.len() as int,
        ) == ",\"name\":"@ + acct_t5(a, rest),
        v.subrange(
            pos + "{\"id\":"@.len() + enc_str(a.id).len() + ",\"subaccounts\":"@.len()
                + enc_str_list(a.subaccounts).len() + ",\"name\":"@.len(),
            v.len() as int,
        ) == enc_str(a.name) + acct_t6(a, rest),
        v.subrange(
            pos + "{\"id\":"@.len() + enc_str(a.id).len() + ",\"subaccounts\":"@.len()
                + enc_str_list(a.subaccounts).len() + ",\"name\":"@.len() + enc_str(a.name).len(),
            v.len() as int,
        ) == ",\"type\":"@ + acct_t7(a, rest),
        v.subrange(
            pos + "{\"id\":"@.len() + enc_str(a.id).len() + ",\"subaccounts\":"@.len()
                + enc_str_list(a.subaccounts).len() + ",\"name\":"@.len() + enc_str(a.name).len()
                + ",\"type\":"@.len(),
            v.len() as int,
        ) == enc_str(enc_type(a.account_type)) + acct_t8(a, rest),
        v.subrange(
            pos + "{\"id\":"@.len() + enc_str(a.id).len() + ",\"subaccounts\":"@.len()
                + enc_str_list(a.subaccounts).len() + ",\"name\":"@.len() + enc_str(a.name).len()
                + ",\"type\":"@.len() + enc_str(enc_type(a.account_type)).len(),
            v.len() as int,
        ) == ",\"transactions\":"@ + acct_t9(a, rest),
        v.subrange(
            pos + "{\"id\":"@.len() + enc_str(a.id).len() + ",\"subaccounts\":"@.len()
                + enc_str_list(a.subaccounts).len() + ",\"name\":"@.len() + enc_str(a.name).len()
                + ",\"type\":"@.len() + enc_str(enc_type(a.account_type)).len()
                + ",\"transactions\":"@.len(),
            v.len() as int,
        ) == enc_str_list(a.transactions) + acct_t10(a, rest),
        v.subrange(
            pos + "{\"id\":"@.len() + enc_str(a.id).len() + ",\"subaccounts\":"@.len()
                + enc_str_list(a.subaccounts).len() + ",\"name\":"@.len() + enc_str(a.name).len()
                + ",\"type\":"@.len() + enc_str(enc_type(a.account_type)).len()
                + ",\"transactions\":"@.len() + enc_str_list(a.transactions).len(),
            v.len() as int,
        ) == ",\"parent\":"@ + acct_t11(a, rest),
        v.subrange(
            pos + "{\"id\":"@.len() + enc_str(a.id).len() + ",\"subaccounts\":"@.len()
                + enc_str_list(a.subaccounts).len() + ",\"name\":"@.len() + enc_str(a.name).len()
                + ",\"type\":"@.len() + enc_str(enc_type(a.account_type)).len()
                + ",\"transactions\":"@.len() + enc_str_list(a.transactions).len()
                + ",\"parent\":"@.len(),
            v.len() as int,
        ) == enc_str(a.parent) + ("}"@ + rest),
        v.subrange(
            pos + "{\"id\":"@.len() + enc_str(a.id).len() + ",\"subaccounts\":"@.len()
                + enc_str_list(a.subaccounts).len() + ",\"name\":"@.len() + enc_str(a.name).len()
                + ",\"type\":"@.len() + enc_str(enc_type(a.account_type)).len()
                + ",\"transactions\":"@.len() + enc_str_list(a.transactions).len()
                + ",\"parent\":"@.len() + enc_str(a.parent).len(),
            v.len() as int,
        ) == "}"@ + rest,
        pos + enc_account(a).len() == pos + "{\"id\":"@.len() + enc_str(a.id).len()
            + ",\"subaccounts\":"@.len() + enc_str_list(a.subaccounts).len() + ",\"name\":"@.len()
            + enc_str(a.name).len() + ",\"type\":"@.len() + enc_str(enc_type(a.account_type)).len()
            + ",\"transactions\":"@.len() + enc_str_list(a.transactions).len()
            + ",\"parent\":"@.len() + enc_str(a.parent).len() + "}"@.len(),
        pos + enc_account(a).len() <= v.len(),
{
    reveal(enc_account);
    assert(enc_account(a) + rest =~= "{\"id\":"@ + (enc_str(a.id) + acct_t2(a, rest)));
    lemma_skip_head(v, pos, "{\"id\":"@, enc_str(a.id) + acct_t2(a, rest));
    let q1 = pos + "{\"id\":"@.len();
    lemma_skip_head(v, q1, enc_str(a.id), acct_t2(a, rest));
    let q2 = q1 + enc_str(a.id).len();
    lemma_skip_head(v, q2, ",\"subaccounts\":"@, acct_t3(a, rest));
    let q3 = q2 + ",\"subaccounts\":"@.len();
    lemma_skip_head(v, q3, enc_str_list(a.subaccounts), acct_t4(a, rest));
    let q4 = q3 + enc_str_list(a.subaccounts).len();
    lemma_skip_head(v, q4, ",\"name\":"@, acct_t5(a, rest));
    let q5 = q4 + ",\"name\":"@.len();
    lemma_skip_head(v, q5, enc_str(a.name), acct_t6(a, rest));
    let q6 = q5 + enc_str(a.name).len();
    lemma_skip_head(v, q6, ",\"type\":"@, acct_t7(a, rest));
    let q7 = q6 + ",\"type\":"@.len();
    lemma_skip_head(v, q7, enc_str(enc_type(a.account_type)), acct_t8(a, rest));
    let q8 = q7 + enc_str(enc_type(a.account_type)).len();
    lemma_skip_head(v, q8, ",\"transactions\":"@, acct_t9(a, rest));
    let q9 = q8 + ",\"transactions\":"@.len();
    lemma_skip_head(v, q9, enc_str_list(a.transactions), acct_t10(a, rest));
    let q10 = q9 + enc_str_list(a.transactions).len();
    lemma_skip_head(v, q10, ",\"parent\":"@, acct_t11(a, rest));
    let q11 = q10 + ",\"parent\":"@.len();
    lemma_skip_head(v, q11, enc_str(a.parent), "}"@ + rest);
    let q12 = q11 + enc_str(a.parent).len();
    lemma_skip_head(v, q12, "}"@, rest);
}

/// Reads an account type from its stored text.
fn parse_type_content(s: &String) -> (r: Option<Option<crate::account::AccountType>>)
    ensures
        r matches Some(t) ==> s@ == enc_type(t),
        forall|t: Option<crate::account::AccountType>| s@ == enc_type(t) ==> r == Some(t),
{
    let n = s.as_str().unicode_len();
    if n == 0 {
        Some(None)
    } else if n == 1 {
        let c = s.as_str().get_char(0);
        if c == 'd' {
            proof {
                assert(s@ =~= enc_type(Some(crate::account::AccountType::Debit)));
            }
            Some(Some(crate::account::AccountType::Debit))
        } else if c == 'c' {
            proof {
                assert(s@ =~= enc_type(Some(crate::account::AccountType::Credit)));
            }
            Some(Some(crate::account::AccountType::Credit))
        } else {
            None
        }
    } else {
        None
    }
}

/// Parses one account record at `pos`.
#[verifier::rlimit(100)]
fn parse_account(v: &Vec<char>, pos: usize) -> (r: Option<(crate::account::Account, usize)>)
    requires
        pos <= v@.len(),
    ensures
        r matches Some(ap) ==> pos <= ap.1 <= v@.len() && v@.subrange(pos as int, ap.1 as int)
            == enc_account(ap.0@),
        forall|a: crate::account::AccountV, rest: Seq<char>|
            v@.subrange(pos as int, v@.len() as int) == enc_account(a) + rest ==> (r matches Some(
                ap,
            ) && ap.0@ == a && ap.1 == pos + enc_account(a).len()),
    decreases v@.len() - pos,
{
    let ghost len = v@.len() as int;
    let p1 = match expect_lit(v, pos, "{\"id\":") {
        Some(p) => p,
        None => {
            proof {
                assert forall|a: crate::account::AccountV, rest: Seq<char>|
                    v@.subrange(pos as int, len) != enc_account(a) + rest by {
                    if v@.subrange(pos as int, len) == enc_account(a) + rest {
                        lemma_account_fields(v@, pos as int, a, rest);
                        lemma_skip_head(v@, pos as int, "{\"id\":"@, enc_str(a.id) + acct_t2(a, rest));
                    }
                }
            }
            return None;
        },
    };
    let (id, p2) = match parse_string(v, p1) {
        Some(sp) => sp,
        None => {
            proof {
                assert forall|a: crate::account::AccountV, rest: Seq<char>|
                    v@.subrange(pos as int, len) != enc_account(a) + rest by {
                    if v@.subrange(pos as int, len) == enc_account(a) + rest {
                        lemma_account_fields(v@, pos as int, a, rest);
                        lemma_skip_head(v@, pos as int, "{\"id\":"@, enc_str(a.id) + acct_t2(a, rest));
                        assert(p1 == pos + "{\"id\":"@.len());
                        assert(v@.subrange(p1 as int, len) == enc_str(a.id) + acct_t2(a, rest));
                    }
                }
            }
            return None;
        },
    };
    let p3 = match expect_lit(v, p2, ",\"subaccounts\":") {
        Some(p) => p,
        None => {
            proof {
                assert forall|a: crate::account::AccountV, rest: Seq<char>|
                    v@.subrange(pos as int, len) != enc_account(a) + rest by {
                    if v@.subrange(pos as int, len) == enc_account(a) + rest {
                        lemma_account_fields(v@, pos as int, a, rest);
                        lemma_skip_head(v@, pos as int, "{\"id\":"@, enc_str(a.id) + acct_t2(a, rest));
                        assert(p1 == pos + "{\"id\":"@.len());
                        assert(v@.subrange(p1 as int, len) == enc_str(a.id) + acct_t2(a, rest));
                        assert(id@ == a.id && p2 == p1 + enc_str(a.id).len());
                        assert(v@.subrange(p2 as int, len) == ",\"subaccounts\":"@ + acct_t3(a, rest));
                        lemma_skip_head(v@, p2 as int, ",\"subaccounts\":"@, acct_t3(a, rest));
                    }
                }
            }
            return None;
        },
    };
    let (subaccounts, p4) = match parse_str_list(v, p3) {
        Some(lp) => lp,
        None => {
            proof {
                assert forall|a: crate::account::AccountV, rest: Seq<char>|
                    v@.subrange(pos as int, len) != enc_account(a) + rest by {
                    if v@.subrange(pos as int, len) == enc_account(a) + rest {
                        lemma_account_fields(v@, pos as int, a, rest);
                        lemma_skip_head(v@, pos as int, "{\"id\":"@, enc_str(a.id) + acct_t2(a, rest));
                        assert(p1 == pos + "{\"id\":"@.len());
                        assert(v@.subrange(p1 as int, len) == enc_str(a.id) + acct_t2(a, rest));
                        assert(id@ == a.id && p2 == p1 + enc_str(a.id).len());
                        assert(v@.subrange(p2 as int, len) == ",\"subaccounts\":"@ + acct_t3(a, rest));
                        lemma_skip_head(v@, p2 as int, ",\"subaccounts\":"@, acct_t3(a, rest));
                        assert(p3 == p2 + ",\"subaccounts\":"@.len());
                        assert(v@.subrange(p3 as int, len) == enc_str_list(a.subaccounts) + acct_t4(a, rest));
                    }
                }
            }
            return None;
        },
    };
    let p5 = match expect_lit(v, p4, ",\"name\":") {
        Some(p) => p,
        None => {
            proof {
                assert forall|a: crate::account::AccountV, rest: Seq<char>|
                    v@.subrange(pos as int, len) != enc_account(a) + rest by {
                    if v@.subrange(pos as int, len) == enc_account(a) + rest {
                        lemma_account_fields(v@, pos as int, a, rest);
                        lemma_skip_head(v@, pos as int, "{\"id\":"@, enc_str(a.id) + acct_t2(a, rest));
                        assert(p1 == pos + "{\"id\":"@.len());
                        assert(v@.subrange(p1 as int, len) == enc_str(a.id) + acct_t2(a, rest));
                        assert(id@ == a.id && p2 == p1 + enc_str(a.id).len());
                        assert(v@.subrange(p2 as int, len) == ",\"subaccounts\":"@ + acct_t3(a, rest));
                        lemma_skip_head(v@, p2 as int, ",\"subaccounts\":"@, acct_t3(a, rest));
                        assert(p3 == p2 + ",\"subaccounts\":"@.len());
                        assert(v@.subrange(p3 as int, len) == enc_str_list(a.subaccounts) + acct_t4(a, rest));
                        assert(p4 == p3 + enc_str_list(a.subaccounts).len());
                        assert(v@.subrange(p4 as int, len) == ",\"name\":"@ + acct_t5(a, rest));
                        lemma_skip_head(v@, p4 as int, ",\"name\":"@, acct_t5(a, rest));
                    }
                }
            }
            return None;
        },
    };
    let (name, p6) = match parse_string(v, p5) {
        Some(sp) => sp,
        None => {
            proof {
                assert forall|a: crate::account::AccountV, rest: Seq<char>|
                    v@.subrange(pos as int, len) != enc_account(a) + rest by {
                    if v@.subrange(pos as int, len) == enc_account(a) + rest {
                        lemma_account_fields(v@, pos as int, a, rest);
                        lemma_skip_head(v@, pos as int, "{\"id\":"@, enc_str(a.id) + acct_t2(a, rest));
                        assert(p1 == pos + "{\"id\":"@.len());
                        assert(v@.subrange(p1 as int, len) == enc_str(a.id) + acct_t2(a, rest));
                        assert(id@ == a.id && p2 == p1 + enc_str(a.id).len());
                        assert(v@.subrange(p2 as int, len) == ",\"subaccounts\":"@ + acct_t3(a, rest));
                        lemma_skip_head(v@, p2 as int, ",\"subaccounts\":"@, acct_t3(a, rest));
                        assert(p3 == p2 + ",\"subaccounts\":"@.len());
                        assert(v@.subrange(p3 as int, len) == enc_str_list(a.subaccounts) + acct_t4(a, rest));
                        assert(p4 == p3 + enc_str_list(a.subaccounts).len());
                        assert(v@.subrange(p4 as int, len) == ",\"name\":"@ + acct_t5(a, rest));
                        lemma_skip_head(v@, p4 as int, ",\"name\":"@, acct_t5(a, rest));
                        assert(p5 == p4 + ",\"name\":"@.len());
                        assert(v@.subrange(p5 as int, len) == enc_str(a.name) + acct_t6(a, rest));
                    }
                }
            }
            return None;
        },
    };
    let p7 = match expect_lit(v, p6, ",\"type\":") {
        Some(p) => p,
        None => {
            proof {
                assert forall|a: crate::account::AccountV, rest: Seq<char>|
                    v@.subrange(pos as int, len) != enc_account(a) + rest by {
                    if v@.subrange(pos as int, len) == enc_account(a) + rest {
                        lemma_account_fields(v@, pos as int, a, rest);
                        lemma_skip_head(v@, pos as int, "{\"id\":"@, enc_str(a.id) + acct_t2(a, rest));
                        assert(p1 == pos + "{\"id\":"@.len());
                        assert(v@.subrange(p1 as int, len) == enc_str(a.id) + acct_t2(a, rest));
                        assert(id@ == a.id && p2 == p1 + enc_str(a.id).len());
                        assert(v@.subrange(p2 as int, len) == ",\"subaccounts\":"@ + acct_t3(a, rest));
                        lemma_skip_head(v@, p2 as int, ",\"subaccounts\":"@, acct_t3(a, rest));
                        assert(p3 == p2 + ",\"subaccounts\":"@.len());
                        assert(v@.subrange(p3 as int, len) == enc_str_list(a.subaccounts) + acct_t4(a, rest));
                        assert(p4 == p3 + enc_str_list(a.subaccounts).len());
                        assert(v@.subrange(p4 as int, len) == ",\"name\":"@ + acct_t5(a, rest));
                        lemma_skip_head(v@, p4 as int, ",\"name\":"@, acct_t5(a, rest));
                        assert(p5 == p4 + ",\"name\":"@.len());
                        assert(v@.subrange(p5 as int, len) == enc_str(a.name) + acct_t6(a, rest));
                        assert(name@ == a.name && p6 == p5 + enc_str(a.name).len());
                        assert(v@.subrange(p6 as int, len) == ",\"type\":"@ + acct_t7(a, rest));
                        lemma_skip_head(v@, p6 as int, ",\"type\":"@, acct_t7(a, rest));
                    }
                }
            }
            return None;
        },
    };
    let (type_text, p8) = match parse_string(v, p7) {
        Some(sp) => sp,
        None => {
            proof {
                assert forall|a: crate::account::AccountV, rest: Seq<char>|
                    v@.subrange(pos as int, len) != enc_account(a) + rest by {
                    if v@.subrange(pos as int, len) == enc_account(a) + rest {
                        lemma_account_fields(v@, pos as int, a, rest);
                        lemma_skip_head(v@, pos as int, "{\"id\":"@, enc_str(a.id) + acct_t2(a, rest));
                        assert(p1 == pos + "{\"id\":"@.len());
                        assert(v@.subrange(p1 as int, len) == enc_str(a.id) + acct_t2(a, rest));
                        assert(id@ == a.id && p2 == p1 + enc_str(a.id).len());
                        assert(v@.subrange(p2 as int, len) == ",\"subaccounts\":"@ + acct_t3(a, rest));
                        lemma_skip_head(v@, p2 as int, ",\"subaccounts\":"@, acct_t3(a, rest));
                        assert(p3 == p2 + ",\"subaccounts\":"@.len());
                        assert(v@.subrange(p3 as int, len) == enc_str_list(a.subaccounts) + acct_t4(a, rest));
                        assert(p4 == p3 + enc_str_list(a.subaccounts).len());
                        assert(v@.subrange(p4 as int, len) == ",\"name\":"@ + acct_t5(a, rest));
                        lemma_skip_head(v@, p4 as int, ",\"name\":"@, acct_t5(a, rest));
                        assert(p5 == p4 + ",\"name\":"@.len());
                        assert(v@.subrange(p5 as int, len) == enc_str(a.name) + acct_t6(a, rest));
                        assert(name@ == a.name && p6 == p5 + enc_str(a.name).len());
                        assert(v@.subrange(p6 as int, len) == ",\"type\":"@ + acct_t7(a, rest));
                        lemma_skip_head(v@, p6 as int, ",\"type\":"@, acct_t7(a, rest));
                        assert(p7 == p6 + ",\"type\":"@.len());
                        assert(v@.subrange(p7 as int, len) == enc_str(enc_type(a.account_type)) + acct_t8(a, rest));
                    }
                }
            }
            return None;
        },
    };
    let account_type = match parse_type_content(&type_text) {
        Some(t) => t,
        None => {
            proof {
                assert forall|a: crate::account::AccountV, rest: Seq<char>|
                    v@.subrange(pos as int, len) != enc_account(a) + rest by {
                    if v@.subrange(pos as int, len) == enc_account(a) + rest {
                        lemma_account_fields(v@, pos as int, a, rest);
                        lemma_skip_head(v@, pos as int, "{\"id\":"@, enc_str(a.id) + acct_t2(a, rest));
                        assert(p1 == pos + "{\"id\":"@.len());
                        assert(v@.subrange(p1 as int, len) == enc_str(a.id) + acct_t2(a, rest));
                        assert(id@ == a.id && p2 == p1 + enc_str(a.id).len());
                        assert(v@.subrange(p2 as int, len) == ",\"subaccounts\":"@ + acct_t3(a, rest));
                        lemma_skip_head(v@, p2 as int, ",\"subaccounts\":"@, acct_t3(a, rest));
                        assert(p3 == p2 + ",\"subaccounts\":"@.len());
                        assert(v@.subrange(p3 as int, len) == enc_str_list(a.subaccounts) + acct_t4(a, rest));
                        assert(p4 == p3 + enc_str_list(a.subaccounts).len());
                        assert(v@.subrange(p4 as int, len) == ",\"name\":"@ + acct_t5(a, rest));
                        lemma_skip_head(v@, p4 as int, ",\"name\":"@, acct_t5(a, rest));
                        assert(p5 == p4 + ",\"name\":"@.len());
                        assert(v@.subrange(p5 as int, len) == enc_str(a.name) + acct_t6(a, rest));
                        assert(name@ == a.name && p6 == p5 + enc_str(a.name).len());
                        assert(v@.subrange(p6 as int, len) == ",\"type\":"@ + acct_t7(a, rest));
                        lemma_skip_head(v@, p6 as int, ",\"type\":"@, acct_t7(a, rest));
                        assert(p7 == p6 + ",\"type\":"@.len());
                        assert(v@.subrange(p7 as int, len) == enc_str(enc_type(a.account_type)) + acct_t8(a, rest));
                        assert(type_text@ == enc_type(a.account_type) && p8 == p7 + enc_str(enc_type(a.account_type)).len());
                    }
                }
            }
            return None;
        },
    };
    let p9 = match expect_lit(v, p8, ",\"transactions\":") {
        Some(p) => p,
        None => {
            proof {
                assert forall|a: crate::account::AccountV, rest: Seq<char>|
                    v@.subrange(pos as int, len) != enc_account(a) + rest by {
                    if v@.subrange(pos as int, len) == enc_account(a) + rest {
                        lemma_account_fields(v@, pos as int, a, rest);
                        lemma_skip_head(v@, pos as int, "{\"id\":"@, enc_str(a.id) + acct_t2(a, rest));
                        assert(p1 == pos + "{\"id\":"@.len());
                        assert(v@.subrange(p1 as int, len) == enc_str(a.id) + acct_t2(a, rest));
                        assert(id@ == a.id && p2 == p1 + enc_str(a.id).len());
                        assert(v@.subrange(p2 as int, len) == ",\"subaccounts\":"@ + acct_t3(a, rest));
                        lemma_skip_head(v@, p2 as int, ",\"subaccounts\":"@, acct_t3(a, rest));
                        assert(p3 == p2 + ",\"subaccounts\":"@.len());
                        assert(v@.subrange(p3 as int, len) == enc_str_list(a.subaccounts) + acct_t4(a, rest));
                        assert(p4 == p3 + enc_str_list(a.subaccounts).len());
                        assert(v@.subrange(p4 as int, len) == ",\"name\":"@ + acct_t5(a, rest));
                        lemma_skip_head(v@, p4 as int, ",\"name\":"@, acct_t5(a, rest));
                        assert(p5 == p4 + ",\"name\":"@.len());
                        assert(v@.subrange(p5 as int, len) == enc_str(a.name) + acct_t6(a, rest));
                        assert(name@ == a.name && p6 == p5 + enc_str(a.name).len());
                        assert(v@.subrange(p6 as int, len) == ",\"type\":"@ + acct_t7(a, rest));
                        lemma_skip_head(v@, p6 as int, ",\"type\":"@, acct_t7(a, rest));
                        assert(p7 == p6 + ",\"type\":"@.len());
                        assert(v@.subrange(p7 as int, len) == enc_str(enc_type(a.account_type)) + acct_t8(a, rest));
                        assert(type_text@ == enc_type(a.account_type) && p8 == p7 + enc_str(enc_type(a.account_type)).len());
                        assert(v@.subrange(p8 as int, len) == ",\"transactions\":"@ + acct_t9(a, rest));
                        lemma_skip_head(v@, p8 as int, ",\"transactions\":"@, acct_t9(a, rest));
                    }
                }
            }
            return None;
        },
    };
    let (transactions, p10) = match parse_str_list(v, p9) {
        Some(lp) => lp,
        None => {
            proof {
                assert forall|a: crate::account::AccountV, rest: Seq<char>|
                    v@.subrange(pos as int, len) != enc_account(a) + rest by {
                    if v@.subrange(pos as int, len) == enc_account(a) + rest {
                        lemma_account_fields(v@, pos as int, a, rest);
                        lemma_skip_head(v@, pos as int, "{\"id\":"@, enc_str(a.id) + acct_t2(a, rest));
                        assert(p1 == pos + "{\"id\":"@.len());
                        assert(v@.subrange(p1 as int, len) == enc_str(a.id) + acct_t2(a, rest));
                        assert(id@ == a.id && p2 == p1 + enc_str(a.id).len());
                        assert(v@.subrange(p2 as int, len) == ",\"subaccounts\":"@ + acct_t3(a, rest));
                        lemma_skip_head(v@, p2 as int, ",\"subaccounts\":"@, acct_t3(a, rest));
                        assert(p3 == p2 + ",\"subaccounts\":"@.len());
                        assert(v@.subrange(p3 as int, len) == enc_str_list(a.subaccounts) + acct_t4(a, rest));
                        assert(p4 == p3 + enc_str_list(a.subaccounts).len());
                        assert(v@.subrange(p4 as int, len) == ",\"name\":"@ + acct_t5(a, rest));
                        lemma_skip_head(v@, p4 as int, ",\"name\":"@, acct_t5(a, rest));
                        assert(p5 == p4 + ",\"name\":"@.len());
                        assert(v@.subrange(p5 as int, len) == enc_str(a.name) + acct_t6(a, rest));
                        assert(name@ == a.name && p6 == p5 + enc_str(a.name).len());
                        assert(v@.subrange(p6 as int, len) == ",\"type\":"@ + acct_t7(a, rest));
                        lemma_skip_head(v@, p6 as int, ",\"type\":"@, acct_t7(a, rest));
                        assert(p7 == p6 + ",\"type\":"@.len());
                        assert(v@.subrange(p7 as int, len) == enc_str(enc_type(a.account_type)) + acct_t8(a, rest));
                        assert(type_text@ == enc_type(a.account_type) && p8 == p7 + enc_str(enc_type(a.account_type)).len());
                        assert(v@.subrange(p8 as int, len) == ",\"transactions\":"@ + acct_t9(a, rest));
                        lemma_skip_head(v@, p8 as int, ",\"transactions\":"@, acct_t9(a, rest));
                        assert(p9 == p8 + ",\"transactions\":"@.len());
                        assert(v@.subrange(p9 as int, len) == enc_str_list(a.transactions) + acct_t10(a, rest));
                    }
                }
            }
            return None;
        },
    };
    let p11 = match expect_lit(v, p10, ",\"parent\":") {
        Some(p) => p,
        None => {
            proof {
                assert forall|a: crate::account::AccountV, rest: Seq<char>|
                    v@.subrange(pos as int, len) != enc_account(a) + rest by {
                    if v@.subrange(pos as int, len) == enc_account(a) + rest {
                        lemma_account_fields(v@, pos as int, a, rest);
                        lemma_skip_head(v@, pos as int, "{\"id\":"@, enc_str(a.id) + acct_t2(a, rest));
                        assert(p1 == pos + "{\"id\":"@.len());
                        assert(v@.subrange(p1 as int, len) == enc_str(a.id) + acct_t2(a, rest));
                        assert(id@ == a.id && p2 == p1 + enc_str(a.id).len());
                        assert(v@.subrange(p2 as int, len) == ",\"subaccounts\":"@ + acct_t3(a, rest));
                        lemma_skip_head(v@, p2 as int, ",\"subaccounts\":"@, acct_t3(a, rest));
                        assert(p3 == p2 + ",\"subaccounts\":"@.len());
                        assert(v@.subrange(p3 as int, len) == enc_str_list(a.subaccounts) + acct_t4(a, rest));
                        assert(p4 == p3 + enc_str_list(a.subaccounts).len());
                        assert(v@.subrange(p4 as int, len) == ",\"name\":"@ + acct_t5(a, rest));
                        lemma_skip_head(v@, p4 as int, ",\"name\":"@, acct_t5(a, rest));
                        assert(p5 == p4 + ",\"name\":"@.len());
                        assert(v@.subrange(p5 as int, len) == enc_str(a.name) + acct_t6(a, rest));
                        assert(name@ == a.name && p6 == p5 + enc_str(a.name).len());
                        assert(v@.subrange(p6 as int, len) == ",\"type\":"@ + acct_t7(a, rest));
                        lemma_skip_head(v@, p6 as int, ",\"type\":"@, acct_t7(a, rest));
                        assert(p7 == p6 + ",\"type\":"@.len());
                        assert(v@.subrange(p7 as int, len) == enc_str(enc_type(a.account_type)) + acct_t8(a, rest));
                        assert(type_text@ == enc_type(a.account_type) && p8 == p7 + enc_str(enc_type(a.account_type)).len());
                        assert(v@.subrange(p8 as int, len) == ",\"transactions\":"@ + acct_t9(a, rest));
                        lemma_skip_head(v@, p8 as int, ",\"transactions\":"@, acct_t9(a, rest));
                        assert(p9 == p8 + ",\"transactions\":"@.len());
                        assert(v@.subrange(p9 as int, len) == enc_str_list(a.transactions) + acct_t10(a, rest));
                        assert(p10 == p9 + enc_str_list(a.transactions).len());
                        assert(v@.subrange(p10 as int, len) == ",\"parent\":"@ + acct_t11(a, rest));
                        lemma_skip_head(v@, p10 as int, ",\"parent\":"@, acct_t11(a, rest));
                    }
                }
            }
            return None;
        },
    };
    let (parent, p12) = match parse_string(v, p11) {
        Some(sp) => sp,
        None => {
            proof {
                assert forall|a: crate::account::AccountV, rest: Seq<char>|
                    v@.subrange(pos as int, len) != enc_account(a) + rest by {
                    if v@.subrange(pos as int, len) == enc_account(a) + rest {
                        lemma_account_fields(v@, pos as int, a, rest);
                        lemma_skip_head(v@, pos as int, "{\"id\":"@, enc_str(a.id) + acct_t2(a, rest));
                        assert(p1 == pos + "{\"id\":"@.len());
                        assert(v@.subrange(p1 as int, len) == enc_str(a.id) + acct_t2(a, rest));
                        assert(id@ == a.id && p2 == p1 + enc_str(a.id).len());
                        assert(v@.subrange(p2 as int, len) == ",\"subaccounts\":"@ + acct_t3(a, rest));
                        lemma_skip_head(v@, p2 as int, ",\"subaccounts\":"@, acct_t3(a, rest));
                        assert(p3 == p2 + ",\"subaccounts\":"@.len());
                        assert(v@.subrange(p3 as int, len) == enc_str_list(a.subaccounts) + acct_t4(a, rest));
                        assert(p4 == p3 + enc_str_list(a.subaccounts).len());
                        assert(v@.subrange(p4 as int, len) == ",\"name\":"@ + acct_t5(a, rest));
                        lemma_skip_head(v@, p4 as int, ",\"name\":"@, acct_t5(a, rest));
                        assert(p5 == p4 + ",\"name\":"@.len());
                        assert(v@.subrange(p5 as int, len) == enc_str(a.name) + acct_t6(a, rest));
                        assert(name@ == a.name && p6 == p5 + enc_str(a.name).len());
                        assert(v@.subrange(p6 as int, len) == ",\"type\":"@ + acct_t7(a, rest));
                        lemma_skip_head(v@, p6 as int, ",\"type\":"@, acct_t7(a, rest));
                        assert(p7 == p6 + ",\"type\":"@.len());
                        assert(v@.subrange(p7 as int, len) == enc_str(enc_type(a.account_type)) + acct_t8(a, rest));
                        assert(type_text@ == enc_type(a.account_type) && p8 == p7 + enc_str(enc_type(a.account_type)).len());
                        assert(v@.subrange(p8 as int, len) == ",\"transactions\":"@ + acct_t9(a, rest));
                        lemma_skip_head(v@, p8 as int, ",\"transactions\":"@, acct_t9(a, rest));
                        assert(p9 == p8 + ",\"transactions\":"@.len());
                        assert(v@.subrange(p9 as int, len) == enc_str_list(a.transactions) + acct_t10(a, rest));
                        assert(p10 == p9 + enc_str_list(a.transactions).len());
                        assert(v@.subrange(p10 as int, len) == ",\"parent\":"@ + acct_t11(a, rest));
                        lemma_skip_head(v@, p10 as int, ",\"parent\":"@, acct_t11(a, rest));
                        assert(p11 == p10 + ",\"parent\":"@.len());
                        assert(v@.subrange(p11 as int, len) == enc_str(a.parent) + ("}"@ + rest));
                    }
                }
            }
            return None;
        },
    };
    let p13 = match expect_lit(v, p12, "}") {
        Some(p) => p,
        None => {
            proof {
                assert forall|a: crate::account::AccountV, rest: Seq<char>|
                    v@.subrange(pos as int, len) != enc_account(a) + rest by {
                    if v@.subrange(pos as int, len) == enc_account(a) + rest {
                        lemma_account_fields(v@, pos as int, a, rest);
                        lemma_skip_head(v@, pos as int, "{\"id\":"@, enc_str(a.id) + acct_t2(a, rest));
                        assert(p1 == pos + "{\"id\":"@.len());
                        assert(v@.subrange(p1 as int, len) == enc_str(a.id) + acct_t2(a, rest));
                        assert(id@ == a.id && p2 == p1 + enc_str(a.id).len());
                        assert(v@.subrange(p2 as int, len) == ",\"subaccounts\":"@ + acct_t3(a, rest));
                        lemma_skip_head(v@, p2 as int, ",\"subaccounts\":"@, acct_t3(a, rest));
                        assert(p3 == p2 + ",\"subaccounts\":"@.len());
                        assert(v@.subrange(p3 as int, len) == enc_str_list(a.subaccounts) + acct_t4(a, rest));
                        assert(p4 == p3 + enc_str_list(a.subaccounts).len());
                        assert(v@.subrange(p4 as int, len) == ",\"name\":"@ + acct_t5(a, rest));
                        lemma_skip_head(v@, p4 as int, ",\"name\":"@, acct_t5(a, rest));
                        assert(p5 == p4 + ",\"name\":"@.len());
                        assert(v@.subrange(p5 as int, len) == enc_str(a.name) + acct_t6(a, rest));
                        assert(name@ == a.name && p6 == p5 + enc_str(a.name).len());
                        assert(v@.subrange(p6 as int, len) == ",\"type\":"@ + acct_t7(a, rest));
                        lemma_skip_head(v@, p6 as int, ",\"type\":"@, acct_t7(a, rest));
                        assert(p7 == p6 + ",\"type\":"@.len());
                        assert(v@.subrange(p7 as int, len) == enc_str(enc_type(a.account_type)) + acct_t8(a, rest));
                        assert(type_text@ == enc_type(a.account_type) && p8 == p7 + enc_str(enc_type(a.account_type)).len());
                        assert(v@.subrange(p8 as int, len) == ",\"transactions\":"@ + acct_t9(a, rest));
                        lemma_skip_head(v@, p8 as int, ",\"transactions\":"@, acct_t9(a, rest));
                        assert(p9 == p8 + ",\"transactions\":"@.len());
                        assert(v@.subrange(p9 as int, len) == enc_str_list(a.transactions) + acct_t10(a, rest));
                        assert(p10 == p9 + enc_str_list(a.transactions).len());
                        assert(v@.subrange(p10 as int, len) == ",\"parent\":"@ + acct_t11(a, rest));
                        lemma_skip_head(v@, p10 as int, ",\"parent\":"@, acct_t11(a, rest));
                        assert(p11 == p10 + ",\"parent\":"@.len());
                        assert(v@.subrange(p11 as int, len) == enc_str(a.parent) + ("}"@ + rest));
                        assert(parent@ == a.parent && p12 == p11 + enc_str(a.parent).len());
                        assert(v@.subrange(p12 as int, len) == "}"@ + rest);
                        lemma_skip_head(v@, p12 as int, "}"@, rest);
                    }
                }
            }
            return None;
        },
    };
    let account = crate::account::Account {
        id,
        subaccounts,
        name,
        account_type,
        transactions,
        parent,
    };
    proof {
        lemma_join(v@, pos as int, p1 as int, p2 as int);
        lemma_join(v@, pos as int, p2 as int, p3 as int);
        lemma_join(v@, pos as int, p3 as int, p4 as int);
        lemma_join(v@, pos as int, p4 as int, p5 as int);
        lemma_join(v@, pos as int, p5 as int, p6 as int);
        lemma_join(v@, pos as int, p6 as int, p7 as int);
        lemma_join(v@, pos as int, p7 as int, p8 as int);
        lemma_join(v@, pos as int, p8 as int, p9 as int);
        lemma_join(v@, pos as int, p9 as int, p10 as int);
        lemma_join(v@, pos as int, p10 as int, p11 as int);
        lemma_join(v@, pos as int, p11 as int, p12 as int);
        lemma_join(v@, pos as int, p12 as int, p13 as int);
        reveal(enc_account);
        assert(v@.subrange(pos as int, p13 as int) =~= enc_account(account@));
        assert forall|a: crate::account::AccountV, rest: Seq<char>|
            v@.subrange(pos as int, len) == enc_account(a) + rest implies account@ == a && p13
            == pos + enc_account(a).len() by {
            lemma_account_fields(v@, pos as int, a, rest);
            lemma_skip_head(v@, pos as int, "{\"id\":"@, enc_str(a.id) + acct_t2(a, rest));
            assert(p1 == pos + "{\"id\":"@.len());
            assert(v@.subrange(p1 as int, len) == enc_str(a.id) + acct_t2(a, rest));
            assert(id@ == a.id && p2 == p1 + enc_str(a.id).len());
            assert(v@.subrange(p2 as int, len) == ",\"subaccounts\":"@ + acct_t3(a, rest));
            lemma_skip_head(v@, p2 as int, ",\"subaccounts\":"@, acct_t3(a, rest));
            assert(p3 == p2 + ",\"subaccounts\":"@.len());
            assert(v@.subrange(p3 as int, len) == enc_str_list(a.subaccounts) + acct_t4(a, rest));
            assert(p4 == p3 + enc_str_list(a.subaccounts).len());
            assert(v@.subrange(p4 as int, len) == ",\"name\":"@ + acct_t5(a, rest));
            lemma_skip_head(v@, p4 as int, ",\"name\":"@, acct_t5(a, rest));
            assert(p5 == p4 + ",\"name\":"@.len());
            assert(v@.subrange(p5 as int, len) == enc_str(a.name) + acct_t6(a, rest));
            assert(name@ == a.name && p6 == p5 + enc_str(a.name).len());
            assert(v@.subrange(p6 as int, len) == ",\"type\":"@ + acct_t7(a, rest));
            lemma_skip_head(v@, p6 as int, ",\"type\":"@, acct_t7(a, rest));
            assert(p7 == p6 + ",\"type\":"@.len());
            assert(v@.subrange(p7 as int, len) == enc_str(enc_type(a.account_type)) + acct_t8(a, rest));
            assert(type_text@ == enc_type(a.account_type) && p8 == p7 + enc_str(enc_type(a.account_type)).len());
            assert(v@.subrange(p8 as int, len) == ",\"transactions\":"@ + acct_t9(a, rest));
            lemma_skip_head(v@, p8 as int, ",\"transactions\":"@, acct_t9(a, rest));
            assert(p9 == p8 + ",\"transactions\":"@.len());
            assert(v@.subrange(p9 as int, len) == enc_str_list(a.transactions) + acct_t10(a, rest));
            assert(p10 == p9 + enc_str_list(a.transactions).len());
            assert(v@.subrange(p10 as int, len) == ",\"parent\":"@ + acct_t11(a, rest));
            lemma_skip_head(v@, p10 as int, ",\"parent\":"@, acct_t11(a, rest));
            assert(p11 == p10 + ",\"parent\":"@.len());
            assert(v@.subrange(p11 as int, len) == enc_str(a.parent) + ("}"@ + rest));
            assert(parent@ == a.parent && p12 == p11 + enc_str(a.parent).len());
            assert(v@.subrange(p12 as int, len) == "}"@ + rest);
            lemma_skip_head(v@, p12 as int, "}"@, rest);
            assert(p13 == p12 + "}"@.len());
            assert(account@ =~= a);
        }
    }
    Some((account, p13))
}


/// What follows the opening key of a transaction record, field by field.
spec fn tx_t2(t: crate::transaction::TransactionV, rest: Seq<char>) -> Seq<char> {
    ",\"credit\":"@ + tx_t3(t, rest)
}

spec fn tx_t3(t: crate::transaction::TransactionV, rest: Seq<char>) -> Seq<char> {
    enc_str(t.credit) + tx_t4(t, rest)
}

spec fn tx_t4(t: crate::transaction::TransactionV, rest: Seq<char>) -> Seq<char> {
    ",\"debit\":"@ + tx_t5(t, rest)
}

spec fn tx_t5(t: crate::transaction::TransactionV, rest: Seq<char>) -> Seq<char> {
    enc_str(t.debit) + tx_t6(t, rest)
}

spec fn tx_t6(t: crate::transaction::TransactionV, rest: Seq<char>) -> Seq<char> {
    ",\"amount\":"@ + tx_t7(t, rest)
}

spec fn tx_t7(t: crate::transaction::TransactionV, rest: Seq<char>) -> Seq<char> {
    enc_str(crate::amount::amount_chars(t.amount.cents as nat)) + tx_t8(t, rest)
}

spec fn tx_t8(t: crate::transaction::TransactionV, rest: Seq<char>) -> Seq<char> {
    ",\"memo\":"@ + tx_t9(t, rest)
}

spec fn tx_t9(t: crate::transaction::TransactionV, rest: Seq<char>) -> Seq<char> {
    enc_str(t.memo) + tx_t10(t, rest)
}

spec fn tx_t10(t: crate::transaction::TransactionV, rest: Seq<char>) -> Seq<char> {
    ",\"date\":"@ + tx_t11(t, rest)
}

spec fn tx_t11(t: crate::transaction::TransactionV, rest: Seq<char>) -> Seq<char> {
    enc_str(crate::date::date_chars(t.date)) + ("}"@ + rest)
}

/// Where each field of an encoded transaction record stands in the input.
#[verifier::rlimit(100)]
#[verifier::spinoff_prover]
proof fn lemma_transaction_fields(
    v: Seq<char>,
    pos: int,
    t: crate::transaction::TransactionV,
    rest: Seq<char>,
)
    requires
        0 <= pos <= v.len(),
        v.subrange(pos, v.len() as int) == enc_transaction(t) + rest,
    ensures
        v.subrange(pos, v.len() as int) == "{\"id\":"@ + (enc_str(t.id) + tx_t2(t, rest)),
        v.subrange(pos + "{\"id\":"@.len(), v.len() as int) == enc_str(t.id) + tx_t2(t, rest),
        v.subrange(
            pos + "{\"id\":"@.len() + enc_str(t.id).len(),
            v.len() as int,
        ) == ",\"credit\":"@ + tx_t3(t, rest),
        v.subrange(
            pos + "{\"id\":"@.len() + enc_str(t.id).len() + ",\"credit\":"@.len(),
            v.len() as int,
        ) == enc_str(t.credit) + tx_t4(t, rest),
        v.subrange(
            pos + "{\"id\":"@.len() + enc_str(t.id).len() + ",\"credit\":"@.len() + enc_str(
                t.credit,
            ).len(),
            v.len() as int,
        ) == ",\"debit\":"@ + tx_t5(t, rest),
        v.subrange(
            pos + "{\"id\":"@.len() + enc_str(t.id).len() + ",\"credit\":"@.len() + enc_str(
                t.credit,
            ).len() + ",\"debit\":"@.len(),
            v.len() as int,
        ) == enc_str(t.debit) + tx_t6(t, rest),
        v.subrange(
            pos + "{\"id\":"@.len() + enc_str(t.id).len() + ",\"credit\":"@.len() + enc_str(
                t.credit,
            ).len() + ",\"debit\":"@.len() + enc_str(t.debit).len(),
            v.len() as int,
        ) == ",\"amount\":"@ + tx_t7(t, rest),
        v.subrange(
            pos + "{\"id\":"@.len() + enc_str(t.id).len() + ",\"credit\":"@.len() + enc_str(
                t.credit,
            ).len() + ",\"debit\":"@.len() + enc_str(t.debit).len() + ",\"amount\":"@.len(),
            v.len() as int,
        ) == enc_str(crate::amount::amount_chars(t.amount.cents as nat)) + tx_t8(t, rest),
        v.subrange(
            pos + "{\"id\":"@.len() + enc_str(t.id).len() + ",\"credit\":"@.len() + enc_str(
                t.credit,
            ).len() + ",\"debit\":"@.len() + enc_str(t.debit).len() + ",\"amount\":"@.len()
                + enc_str(crate::amount::amount_chars(t.amount.cents as nat)).len(),
            v.len() as int,
        ) == ",\"memo\":"@ + tx_t9(t, rest),
        v.subrange(
            pos + "{\"id\":"@.len() + enc_str(t.id).len() + ",\"credit\":"@.len() + enc_str(
                t.credit,
            ).len() + ",\"debit\":"@.len() + enc_str(t.debit).len() + ",\"amount\":"@.len()
                + enc_str(crate::amount::amount_chars(t.amount.cents as nat)).len()
                + ",\"memo\":"@.len(),
            v.len() as int,
        ) == enc_str(t.memo) + tx_t10(t, rest),
        v.subrange(
            pos + "{\"id\":"@.len() + enc_str(t.id).len() + ",\"credit\":"@.len() + enc_str(
                t.credit,
            ).len() + ",\"debit\":"@.len() + enc_str(t.debit).len() + ",\"amount\":"@.len()
                + enc_str(crate::amount::amount_chars(t.amount.cents as nat)).len()
                + ",\"memo\":"@.len() + enc_str(t.memo).len(),
            v.len() as int,
        ) == ",\"date\":"@ + tx_t11(t, rest),
        v.subrange(
            pos + "{\"id\":"@.len() + enc_str(t.id).len() + ",\"credit\":"@.len() + enc_str(
                t.credit,
            ).len() + ",\"debit\":"@.len() + enc_str(t.debit).len() + ",\"amount\":"@.len()
                + enc_str(crate::amount::amount_chars(t.amount.cents as nat)).len()
                + ",\"memo\":"@.len() + enc_str(t.memo).len() + ",\"date\":"@.len(),
            v.len() as int,
        ) == enc_str(crate::date::date_chars(t.date)) + ("}"@ + rest),
        v.subrange(
            pos + "{\"id\":"@.len() + enc_str(t.id).len() + ",\"credit\":"@.len() + enc_str(
                t.credit,
            ).len() + ",\"debit\":"@.len() + enc_str(t.debit).len() + ",\"amount\":"@.len()
                + enc_str(crate::amount::amount_chars(t.amount.cents as nat)).len()
                + ",\"memo\":"@.len() + enc_str(t.memo).len() + ",\"date\":"@.len() + enc_str(
                crate::date::date_chars(t.date),
            ).len(),
            v.len() as int,
        ) == "}"@ + rest,
        pos + enc_transaction(t).len() == pos + "{\"id\":"@.len() + enc_str(t.id).len()
            + ",\"credit\":"@.len() + enc_str(t.credit).len() + ",\"debit\":"@.len() + enc_str(
            t.debit,
        ).len() + ",\"amount\":"@.len() + enc_str(
            crate::amount::amount_chars(t.amount.cents as nat),
        ).len() + ",\"memo\":"@.len() + enc_str(t.memo).len() + ",\"date\":"@.len() + enc_str(
            crate::date::date_chars(t.date),
        ).len() + "}"@.len(),
        pos + enc_transaction(t).len() <= v.len(),
{
    reveal(enc_transaction);
    assert(enc_transaction(t) + rest =~= "{\"id\":"@ + (enc_str(t.id) + tx_t2(t, rest)));
    lemma_skip_head(v, pos, "{\"id\":"@, enc_str(t.id) + tx_t2(t, rest));
    let q1 = pos + "{\"id\":"@.len();
    lemma_skip_head(v, q1, enc_str(t.id), tx_t2(t, rest));
    let q2 = q1 + enc_str(t.id).len();
    lemma_skip_head(v, q2, ",\"credit\":"@, tx_t3(t, rest));
    let q3 = q2 + ",\"credit\":"@.len();
    lemma_skip_head(v, q3, enc_str(t.credit), tx_t4(t, rest));
    let q4 = q3 + enc_str(t.credit).len();
    lemma_skip_head(v, q4, ",\"debit\":"@, tx_t5(t, rest));
    let q5 = q4 + ",\"debit\":"@.len();
    lemma_skip_head(v, q5, enc_str(t.debit), tx_t6(t, rest));
    let q6 = q5 + enc_str(t.debit).len();
    lemma_skip_head(v, q6, ",\"amount\":"@, tx_t7(t, rest));
    let q7 = q6 + ",\"amount\":"@.len();
    lemma_skip_head(
        v,
        q7,
        enc_str(crate::amount::amount_chars(t.amount.cents as nat)),
        tx_t8(t, rest),
    );
    let q8 = q7 + enc_str(crate::amount::amount_chars(t.amount.cents as nat)).len();
    lemma_skip_head(v, q8, ",\"memo\":"@, tx_t9(t, rest));
    let q9 = q8 + ",\"memo\":"@.len();
    lemma_skip_head(v, q9, enc_str(t.memo), tx_t10(t, rest));
    let q10 = q9 + enc_str(t.memo).len();
    lemma_skip_head(v, q10, ",\"date\":"@, tx_t11(t, rest));
    let q11 = q10 + ",\"date\":"@.len();
    lemma_skip_head(v, q11, enc_str(crate::date::date_chars(t.date)), "}"@ + rest);
    let q12 = q11 + enc_str(crate::date::date_chars(t.date)).len();
    lemma_skip_head(v, q12, "}"@, rest);
}

/// Parses one transaction record at `pos`.
#[verifier::rlimit(100)]
fn parse_transaction(v: &Vec<char>, pos: usize) -> (r: Option<
    (crate::transaction::Transaction, usize),
>)
    requires
        pos <= v@.len(),
    ensures
        r matches Some(tp) ==> pos <= tp.1 <= v@.len() && v@.subrange(pos as int, tp.1 as int)
            == enc_transaction(tp.0@) && tp.0@.date.wf(),
        forall|t: crate::transaction::TransactionV, rest: Seq<char>|
            v@.subrange(pos as int, v@.len() as int) == enc_transaction(t) + rest && t.date.wf()
                ==> (r matches Some(tp) && tp.0@ == t && tp.1 == pos + enc_transaction(t).len()),
    decreases v@.len() - pos,
{
    let ghost len = v@.len() as int;
    let p1 = match expect_lit(v, pos, "{\"id\":") {
        Some(p) => p,
        None => {
            proof {
                assert forall|t: crate::transaction::TransactionV, rest: Seq<char>|
                    !(v@.subrange(pos as int, len) == enc_transaction(t) + rest
                        && t.date.wf()) by {
                    if v@.subrange(pos as int, len) == enc_transaction(t) + rest && t.date.wf() {
                        lemma_transaction_fields(v@, pos as int, t, rest);
                        lemma_skip_head(v@, pos as int, "{\"id\":"@, enc_str(t.id) + tx_t2(t, rest));
                    }
                }
            }
            return None;
        },
    };
    let (id, p2) = match parse_string(v, p1) {
        Some(sp) => sp,
        None => {
            proof {
                assert forall|t: crate::transaction::TransactionV, rest: Seq<char>|
                    !(v@.subrange(pos as int, len) == enc_transaction(t) + rest
                        && t.date.wf()) by {
                    if v@.subrange(pos as int, len) == enc_transaction(t) + rest && t.date.wf() {
                        lemma_transaction_fields(v@, pos as int, t, rest);
                        lemma_skip_head(v@, pos as int, "{\"id\":"@, enc_str(t.id) + tx_t2(t, rest));
                        assert(p1 == pos + "{\"id\":"@.len());
                        assert(v@.subrange(p1 as int, len) == enc_str(t.id) + tx_t2(t, rest));
                    }
                }
            }
            return None;
        },
    };
    let p3 = match expect_lit(v, p2, ",\"credit\":") {
        Some(p) => p,
        None => {
            proof {
                assert forall|t: crate::transaction::TransactionV, rest: Seq<char>|
                    !(v@.subrange(pos as int, len) == enc_transaction(t) + rest
                        && t.date.wf()) by {
                    if v@.subrange(pos as int, len) == enc_transaction(t) + rest && t.date.wf() {
                        lemma_transaction_fields(v@, pos as int, t, rest);
                        lemma_skip_head(v@, pos as int, "{\"id\":"@, enc_str(t.id) + tx_t2(t, rest));
                        assert(p1 == pos + "{\"id\":"@.len());
                        assert(v@.subrange(p1 as int, len) == enc_str(t.id) + tx_t2(t, rest));
                        assert(id@ == t.id && p2 == p1 + enc_str(t.id).len());
                        assert(v@.subrange(p2 as int, len) == ",\"credit\":"@ + tx_t3(t, rest));
                        lemma_skip_head(v@, p2 as int, ",\"credit\":"@, tx_t3(t, rest));
                    }
                }
            }
            return None;
        },
    };
    let (credit, p4) = match parse_string(v, p3) {
        Some(sp) => sp,
        None => {
            proof {
                assert forall|t: crate::transaction::TransactionV, rest: Seq<char>|
                    !(v@.subrange(pos as int, len) == enc_transaction(t) + rest
                        && t.date.wf()) by {
                    if v@.subrange(pos as int, len) == enc_transaction(t) + rest && t.date.wf() {
                        lemma_transaction_fields(v@, pos as int, t, rest);
                        lemma_skip_head(v@, pos as int, "{\"id\":"@, enc_str(t.id) + tx_t2(t, rest));
                        assert(p1 == pos + "{\"id\":"@.len());
                        assert(v@.subrange(p1 as int, len) == enc_str(t.id) + tx_t2(t, rest));
                        assert(id@ == t.id && p2 == p1 + enc_str(t.id).len());
                        assert(v@.subrange(p2 as int, len) == ",\"credit\":"@ + tx_t3(t, rest));
                        lemma_skip_head(v@, p2 as int, ",\"credit\":"@, tx_t3(t, rest));
                        assert(p3 == p2 + ",\"credit\":"@.len());
                        assert(v@.subrange(p3 as int, len) == enc_str(t.credit) + tx_t4(t, rest));
                    }
                }
            }
            return None;
        },
    };
    let p5 = match expect_lit(v, p4, ",\"debit\":") {
        Some(p) => p,
        None => {
            proof {
                assert forall|t: crate::transaction::TransactionV, rest: Seq<char>|
                    !(v@.subrange(pos as int, len) == enc_transaction(t) + rest
                        && t.date.wf()) by {
                    if v@.subrange(pos as int, len) == enc_transaction(t) + rest && t.date.wf() {
                        lemma_transaction_fields(v@, pos as int, t, rest);
                        lemma_skip_head(v@, pos as int, "{\"id\":"@, enc_str(t.id) + tx_t2(t, rest));
                        assert(p1 == pos + "{\"id\":"@.len());
                        assert(v@.subrange(p1 as int, len) == enc_str(t.id) + tx_t2(t, rest));
                        assert(id@ == t.id && p2 == p1 + enc_str(t.id).len());
                        assert(v@.subrange(p2 as int, len) == ",\"credit\":"@ + tx_t3(t, rest));
                        lemma_skip_head(v@, p2 as int, ",\"credit\":"@, tx_t3(t, rest));
                        assert(p3 == p2 + ",\"credit\":"@.len());
                        assert(v@.subrange(p3 as int, len) == enc_str(t.credit) + tx_t4(t, rest));
                        assert(credit@ == t.credit && p4 == p3 + enc_str(t.credit).len());
                        assert(v@.subrange(p4 as int, len) == ",\"debit\":"@ + tx_t5(t, rest));
                        lemma_skip_head(v@, p4 as int, ",\"debit\":"@, tx_t5(t, rest));
                    }
                }
            }
            return None;
        },
    };
    let (debit, p6) = match parse_string(v, p5) {
        Some(sp) => sp,
        None => {
            proof {
                assert forall|t: crate::transaction::TransactionV, rest: Seq<char>|
                    !(v@.subrange(pos as int, len) == enc_transaction(t) + rest
                        && t.date.wf()) by {
                    if v@.subrange(pos as int, len) == enc_transaction(t) + rest && t.date.wf() {
                        lemma_transaction_fields(v@, pos as int, t, rest);
                        lemma_skip_head(v@, pos as int, "{\"id\":"@, enc_str(t.id) + tx_t2(t, rest));
                        assert(p1 == pos + "{\"id\":"@.len());
                        assert(v@.subrange(p1 as int, len) == enc_str(t.id) + tx_t2(t, rest));
                        assert(id@ == t.id && p2 == p1 + enc_str(t.id).len());
                        assert(v@.subrange(p2 as int, len) == ",\"credit\":"@ + tx_t3(t, rest));
                        lemma_skip_head(v@, p2 as int, ",\"credit\":"@, tx_t3(t, rest));
                        assert(p3 == p2 + ",\"credit\":"@.len());
                        assert(v@.subrange(p3 as int, len) == enc_str(t.credit) + tx_t4(t, rest));
                        assert(credit@ == t.credit && p4 == p3 + enc_str(t.credit).len());
                        assert(v@.subrange(p4 as int, len) == ",\"debit\":"@ + tx_t5(t, rest));
                        lemma_skip_head(v@, p4 as int, ",\"debit\":"@, tx_t5(t, rest));
                        assert(p5 == p4 + ",\"debit\":"@.len());
                        assert(v@.subrange(p5 as int, len) == enc_str(t.debit) + tx_t6(t, rest));
                    }
                }
            }
            return None;
        },
    };
    let p7 = match expect_lit(v, p6, ",\"amount\":") {
        Some(p) => p,
        None => {
            proof {
                assert forall|t: crate::transaction::TransactionV, rest: Seq<char>|
                    !(v@.subrange(pos as int, len) == enc_transaction(t) + rest
                        && t.date.wf()) by {
                    if v@.subrange(pos as int, len) == enc_transaction(t) + rest && t.date.wf() {
                        lemma_transaction_fields(v@, pos as int, t, rest);
                        lemma_skip_head(v@, pos as int, "{\"id\":"@, enc_str(t.id) + tx_t2(t, rest));
                        assert(p1 == pos + "{\"id\":"@.len());
                        assert(v@.subrange(p1 as int, len) == enc_str(t.id) + tx_t2(t, rest));
                        assert(id@ == t.id && p2 == p1 + enc_str(t.id).len());
                        assert(v@.subrange(p2 as int, len) == ",\"credit\":"@ + tx_t3(t, rest));
                        lemma_skip_head(v@, p2 as int, ",\"credit\":"@, tx_t3(t, rest));
                        assert(p3 == p2 + ",\"credit\":"@.len());
                        assert(v@.subrange(p3 as int, len) == enc_str(t.credit) + tx_t4(t, rest));
                        assert(credit@ == t.credit && p4 == p3 + enc_str(t.credit).len());
                        assert(v@.subrange(p4 as int, len) == ",\"debit\":"@ + tx_t5(t, rest));
                        lemma_skip_head(v@, p4 as int, ",\"debit\":"@, tx_t5(t, rest));
                        assert(p5 == p4 + ",\"debit\":"@.len());
                        assert(v@.subrange(p5 as int, len) == enc_str(t.debit) + tx_t6(t, rest));
                        assert(debit@ == t.debit && p6 == p5 + enc_str(t.debit).len());
                        assert(v@.subrange(p6 as int, len) == ",\"amount\":"@ + tx_t7(t, rest));
                        lemma_skip_head(v@, p6 as int, ",\"amount\":"@, tx_t7(t, rest));
                    }
                }
            }
            return None;
        },
    };
    let (amount_text, p8) = match parse_string(v, p7) {
        Some(sp) => sp,
        None => {
            proof {
                assert forall|t: crate::transaction::TransactionV, rest: Seq<char>|
                    !(v@.subrange(pos as int, len) == enc_transaction(t) + rest
                        && t.date.wf()) by {
                    if v@.subrange(pos as int, len) == enc_transaction(t) + rest && t.date.wf() {
                        lemma_transaction_fields(v@, pos as int, t, rest);
                        lemma_skip_head(v@, pos as int, "{\"id\":"@, enc_str(t.id) + tx_t2(t, rest));
                        assert(p1 == pos + "{\"id\":"@.len());
                        assert(v@.subrange(p1 as int, len) == enc_str(t.id) + tx_t2(t, rest));
                        assert(id@ == t.id && p2 == p1 + enc_str(t.id).len());
                        assert(v@.subrange(p2 as int, len) == ",\"credit\":"@ + tx_t3(t, rest));
                        lemma_skip_head(v@, p2 as int, ",\"credit\":"@, tx_t3(t, rest));
                        assert(p3 == p2 + ",\"credit\":"@.len());
                        assert(v@.subrange(p3 as int, len) == enc_str(t.credit) + tx_t4(t, rest));
                        assert(credit@ == t.credit && p4 == p3 + enc_str(t.credit).len());
                        assert(v@.subrange(p4 as int, len) == ",\"debit\":"@ + tx_t5(t, rest));
                        lemma_skip_head(v@, p4 as int, ",\"debit\":"@, tx_t5(t, rest));
                        assert(p5 == p4 + ",\"debit\":"@.len());
                        assert(v@.subrange(p5 as int, len) == enc_str(t.debit) + tx_t6(t, rest));
                        assert(debit@ == t.debit && p6 == p5 + enc_str(t.debit).len());
                        assert(v@.subrange(p6 as int, len) == ",\"amount\":"@ + tx_t7(t, rest));
                        lemma_skip_head(v@, p6 as int, ",\"amount\":"@, tx_t7(t, rest));
                        assert(p7 == p6 + ",\"amount\":"@.len());
                        assert(v@.subrange(p7 as int, len) == enc_str(crate::amount::amount_chars(t.amount.cents as nat)) + tx_t8(t, rest));
                    }
                }
            }
            return None;
        },
    };
    let amount = match crate::amount::Amount::parse(amount_text.as_str()) {
        Some(am) => am,
        None => {
            proof {
                assert forall|t: crate::transaction::TransactionV, rest: Seq<char>|
                    !(v@.subrange(pos as int, len) == enc_transaction(t) + rest
                        && t.date.wf()) by {
                    if v@.subrange(pos as int, len) == enc_transaction(t) + rest && t.date.wf() {
                        lemma_transaction_fields(v@, pos as int, t, rest);
                        lemma_skip_head(v@, pos as int, "{\"id\":"@, enc_str(t.id) + tx_t2(t, rest));
                        assert(p1 == pos + "{\"id\":"@.len());
                        assert(v@.subrange(p1 as int, len) == enc_str(t.id) + tx_t2(t, rest));
                        assert(id@ == t.id && p2 == p1 + enc_str(t.id).len());
                        assert(v@.subrange(p2 as int, len) == ",\"credit\":"@ + tx_t3(t, rest));
                        lemma_skip_head(v@, p2 as int, ",\"credit\":"@, tx_t3(t, rest));
                        assert(p3 == p2 + ",\"credit\":"@.len());
                        assert(v@.subrange(p3 as int, len) == enc_str(t.credit) + tx_t4(t, rest));
                        assert(credit@ == t.credit && p4 == p3 + enc_str(t.credit).len());
                        assert(v@.subrange(p4 as int, len) == ",\"debit\":"@ + tx_t5(t, rest));
                        lemma_skip_head(v@, p4 as int, ",\"debit\":"@, tx_t5(t, rest));
                        assert(p5 == p4 + ",\"debit\":"@.len());
                        assert(v@.subrange(p5 as int, len) == enc_str(t.debit) + tx_t6(t, rest));
                        assert(debit@ == t.debit && p6 == p5 + enc_str(t.debit).len());
                        assert(v@.subrange(p6 as int, len) == ",\"amount\":"@ + tx_t7(t, rest));
                        lemma_skip_head(v@, p6 as int, ",\"amount\":"@, tx_t7(t, rest));
                        assert(p7 == p6 + ",\"amount\":"@.len());
                        assert(v@.subrange(p7 as int, len) == enc_str(crate::amount::amount_chars(t.amount.cents as nat)) + tx_t8(t, rest));
                        assert(amount_text@ == crate::amount::amount_chars(t.amount.cents as nat) && p8 == p7 + enc_str(crate::amount::amount_chars(t.amount.cents as nat)).len());
                    }
                }
            }
            return None;
        },
    };
    let p9 = match expect_lit(v, p8, ",\"memo\":") {
        Some(p) => p,
        None => {
            proof {
                assert forall|t: crate::transaction::TransactionV, rest: Seq<char>|
                    !(v@.subrange(pos as int, len) == enc_transaction(t) + rest
                        && t.date.wf()) by {
                    if v@.subrange(pos as int, len) == enc_transaction(t) + rest && t.date.wf() {
                        lemma_transaction_fields(v@, pos as int, t, rest);
                        lemma_skip_head(v@, pos as int, "{\"id\":"@, enc_str(t.id) + tx_t2(t, rest));
                        assert(p1 == pos + "{\"id\":"@.len());
                        assert(v@.subrange(p1 as int, len) == enc_str(t.id) + tx_t2(t, rest));
                        assert(id@ == t.id && p2 == p1 + enc_str(t.id).len());
                        assert(v@.subrange(p2 as int, len) == ",\"credit\":"@ + tx_t3(t, rest));
                        lemma_skip_head(v@, p2 as int, ",\"credit\":"@, tx_t3(t, rest));
                        assert(p3 == p2 + ",\"credit\":"@.len());
                        assert(v@.subrange(p3 as int, len) == enc_str(t.credit) + tx_t4(t, rest));
                        assert(credit@ == t.credit && p4 == p3 + enc_str(t.credit).len());
                        assert(v@.subrange(p4 as int, len) == ",\"debit\":"@ + tx_t5(t, rest));
                        lemma_skip_head(v@, p4 as int, ",\"debit\":"@, tx_t5(t, rest));
                        assert(p5 == p4 + ",\"debit\":"@.len());
                        assert(v@.subrange(p5 as int, len) == enc_str(t.debit) + tx_t6(t, rest));
                        assert(debit@ == t.debit && p6 == p5 + enc_str(t.debit).len());
                        assert(v@.subrange(p6 as int, len) == ",\"amount\":"@ + tx_t7(t, rest));
                        lemma_skip_head(v@, p6 as int, ",\"amount\":"@, tx_t7(t, rest));
                        assert(p7 == p6 + ",\"amount\":"@.len());
                        assert(v@.subrange(p7 as int, len) == enc_str(crate::amount::amount_chars(t.amount.cents as nat)) + tx_t8(t, rest));
                        assert(amount_text@ == crate::amount::amount_chars(t.amount.cents as nat) && p8 == p7 + enc_str(crate::amount::amount_chars(t.amount.cents as nat)).len());
                        assert(v@.subrange(p8 as int, len) == ",\"memo\":"@ + tx_t9(t, rest));
                        lemma_skip_head(v@, p8 as int, ",\"memo\":"@, tx_t9(t, rest));
                    }
                }
            }
            return None;
        },
    };
    let (memo, p10) = match parse_string(v, p9) {
        Some(sp) => sp,
        None => {
            proof {
                assert forall|t: crate::transaction::TransactionV, rest: Seq<char>|
                    !(v@.subrange(pos as int, len) == enc_transaction(t) + rest
                        && t.date.wf()) by {
                    if v@.subrange(pos as int, len) == enc_transaction(t) + rest && t.date.wf() {
                        lemma_transaction_fields(v@, pos as int, t, rest);
                        lemma_skip_head(v@, pos as int, "{\"id\":"@, enc_str(t.id) + tx_t2(t, rest));
                        assert(p1 == pos + "{\"id\":"@.len());
                        assert(v@.subrange(p1 as int, len) == enc_str(t.id) + tx_t2(t, rest));
                        assert(id@ == t.id && p2 == p1 + enc_str(t.id).len());
                        assert(v@.subrange(p2 as int, len) == ",\"credit\":"@ + tx_t3(t, rest));
                        lemma_skip_head(v@, p2 as int, ",\"credit\":"@, tx_t3(t, rest));
                        assert(p3 == p2 + ",\"credit\":"@.len());
                        assert(v@.subrange(p3 as int, len) == enc_str(t.credit) + tx_t4(t, rest));
                        assert(credit@ == t.credit && p4 == p3 + enc_str(t.credit).len());
                        assert(v@.subrange(p4 as int, len) == ",\"debit\":"@ + tx_t5(t, rest));
                        lemma_skip_head(v@, p4 as int, ",\"debit\":"@, tx_t5(t, rest));
                        assert(p5 == p4 + ",\"debit\":"@.len());
                        assert(v@.subrange(p5 as int, len) == enc_str(t.debit) + tx_t6(t, rest));
                        assert(debit@ == t.debit && p6 == p5 + enc_str(t.debit).len());
                        assert(v@.subrange(p6 as int, len) == ",\"amount\":"@ + tx_t7(t, rest));
                        lemma_skip_head(v@, p6 as int, ",\"amount\":"@, tx_t7(t, rest));
                        assert(p7 == p6 + ",\"amount\":"@.len());
                        assert(v@.subrange(p7 as int, len) == enc_str(crate::amount::amount_chars(t.amount.cents as nat)) + tx_t8(t, rest));
                        assert(amount_text@ == crate::amount::amount_chars(t.amount.cents as nat) && p8 == p7 + enc_str(crate::amount::amount_chars(t.amount.cents as nat)).len());
                        assert(v@.subrange(p8 as int, len) == ",\"memo\":"@ + tx_t9(t, rest));
                        lemma_skip_head(v@, p8 as int, ",\"memo\":"@, tx_t9(t, rest));
                        assert(p9 == p8 + ",\"memo\":"@.len());
                        assert(v@.subrange(p9 as int, len) == enc_str(t.memo) + tx_t10(t, rest));
                    }
                }
            }
            return None;
        },
    };
    let p11 = match expect_lit(v, p10, ",\"date\":") {
        Some(p) => p,
        None => {
            proof {
                assert forall|t: crate::transaction::TransactionV, rest: Seq<char>|
                    !(v@.subrange(pos as int, len) == enc_transaction(t) + rest
                        && t.date.wf()) by {
                    if v@.subrange(pos as int, len) == enc_transaction(t) + rest && t.date.wf() {
                        lemma_transaction_fields(v@, pos as int, t, rest);
                        lemma_skip_head(v@, pos as int, "{\"id\":"@, enc_str(t.id) + tx_t2(t, rest));
                        assert(p1 == pos + "{\"id\":"@.len());
                        assert(v@.subrange(p1 as int, len) == enc_str(t.id) + tx_t2(t, rest));
                        assert(id@ == t.id && p2 == p1 + enc_str(t.id).len());
                        assert(v@.subrange(p2 as int, len) == ",\"credit\":"@ + tx_t3(t, rest));
                        lemma_skip_head(v@, p2 as int, ",\"credit\":"@, tx_t3(t, rest));
                        assert(p3 == p2 + ",\"credit\":"@.len());
                        assert(v@.subrange(p3 as int, len) == enc_str(t.credit) + tx_t4(t, rest));
                        assert(credit@ == t.credit && p4 == p3 + enc_str(t.credit).len());
                        assert(v@.subrange(p4 as int, len) == ",\"debit\":"@ + tx_t5(t, rest));
                        lemma_skip_head(v@, p4 as int, ",\"debit\":"@, tx_t5(t, rest));
                        assert(p5 == p4 + ",\"debit\":"@.len());
                        assert(v@.subrange(p5 as int, len) == enc_str(t.debit) + tx_t6(t, rest));
                        assert(debit@ == t.debit && p6 == p5 + enc_str(t.debit).len());
                        assert(v@.subrange(p6 as int, len) == ",\"amount\":"@ + tx_t7(t, rest));
                        lemma_skip_head(v@, p6 as int, ",\"amount\":"@, tx_t7(t, rest));
                        assert(p7 == p6 + ",\"amount\":"@.len());
                        assert(v@.subrange(p7 as int, len) == enc_str(crate::amount::amount_chars(t.amount.cents as nat)) + tx_t8(t, rest));
                        assert(amount_text@ == crate::amount::amount_chars(t.amount.cents as nat) && p8 == p7 + enc_str(crate::amount::amount_chars(t.amount.cents as nat)).len());
                        assert(v@.subrange(p8 as int, len) == ",\"memo\":"@ + tx_t9(t, rest));
                        lemma_skip_head(v@, p8 as int, ",\"memo\":"@, tx_t9(t, rest));
                        assert(p9 == p8 + ",\"memo\":"@.len());
                        assert(v@.subrange(p9 as int, len) == enc_str(t.memo) + tx_t10(t, rest));
                        assert(memo@ == t.memo && p10 == p9 + enc_str(t.memo).len());
                        assert(v@.subrange(p10 as int, len) == ",\"date\":"@ + tx_t11(t, rest));
                        lemma_skip_head(v@, p10 as int, ",\"date\":"@, tx_t11(t, rest));
                    }
                }
            }
            return None;
        },
    };
    let (date_text, p12) = match parse_string(v, p11) {
        Some(sp) => sp,
        None => {
            proof {
                assert forall|t: crate::transaction::TransactionV, rest: Seq<char>|
                    !(v@.subrange(pos as int, len) == enc_transaction(t) + rest
                        && t.date.wf()) by {
                    if v@.subrange(pos as int, len) == enc_transaction(t) + rest && t.date.wf() {
                        lemma_transaction_fields(v@, pos as int, t, rest);
                        lemma_skip_head(v@, pos as int, "{\"id\":"@, enc_str(t.id) + tx_t2(t, rest));
                        assert(p1 == pos + "{\"id\":"@.len());
                        assert(v@.subrange(p1 as int, len) == enc_str(t.id) + tx_t2(t, rest));
                        assert(id@ == t.id && p2 == p1 + enc_str(t.id).len());
                        assert(v@.subrange(p2 as int, len) == ",\"credit\":"@ + tx_t3(t, rest));
                        lemma_skip_head(v@, p2 as int, ",\"credit\":"@, tx_t3(t, rest));
                        assert(p3 == p2 + ",\"credit\":"@.len());
                        assert(v@.subrange(p3 as int, len) == enc_str(t.credit) + tx_t4(t, rest));
                        assert(credit@ == t.credit && p4 == p3 + enc_str(t.credit).len());
                        assert(v@.subrange(p4 as int, len) == ",\"debit\":"@ + tx_t5(t, rest));
                        lemma_skip_head(v@, p4 as int, ",\"debit\":"@, tx_t5(t, rest));
                        assert(p5 == p4 + ",\"debit\":"@.len());
                        assert(v@.subrange(p5 as int, len) == enc_str(t.debit) + tx_t6(t, rest));
                        assert(debit@ == t.debit && p6 == p5 + enc_str(t.debit).len());
                        assert(v@.subrange(p6 as int, len) == ",\"amount\":"@ + tx_t7(t, rest));
                        lemma_skip_head(v@, p6 as int, ",\"amount\":"@, tx_t7(t, rest));
                        assert(p7 == p6 + ",\"amount\":"@.len());
                        assert(v@.subrange(p7 as int, len) == enc_str(crate::amount::amount_chars(t.amount.cents as nat)) + tx_t8(t, rest));
                        assert(amount_text@ == crate::amount::amount_chars(t.amount.cents as nat) && p8 == p7 + enc_str(crate::amount::amount_chars(t.amount.cents as nat)).len());
                        assert(v@.subrange(p8 as int, len) == ",\"memo\":"@ + tx_t9(t, rest));
                        lemma_skip_head(v@, p8 as int, ",\"memo\":"@, tx_t9(t, rest));
                        assert(p9 == p8 + ",\"memo\":"@.len());
                        assert(v@.subrange(p9 as int, len) == enc_str(t.memo) + tx_t10(t, rest));
                        assert(memo@ == t.memo && p10 == p9 + enc_str(t.memo).len());
                        assert(v@.subrange(p10 as int, len) == ",\"date\":"@ + tx_t11(t, rest));
                        lemma_skip_head(v@, p10 as int, ",\"date\":"@, tx_t11(t, rest));
                        assert(p11 == p10 + ",\"date\":"@.len());
                        assert(v@.subrange(p11 as int, len) == enc_str(crate::date::date_chars(t.date)) + ("}"@ + rest));
                    }
                }
            }
            return None;
        },
    };
    let date = match crate::date::Date::parse(date_text.as_str()) {
        Some(d) => d,
        None => {
            proof {
                assert forall|t: crate::transaction::TransactionV, rest: Seq<char>|
                    !(v@.subrange(pos as int, len) == enc_transaction(t) + rest
                        && t.date.wf()) by {
                    if v@.subrange(pos as int, len) == enc_transaction(t) + rest && t.date.wf() {
                        lemma_transaction_fields(v@, pos as int, t, rest);
                        lemma_skip_head(v@, pos as int, "{\"id\":"@, enc_str(t.id) + tx_t2(t, rest));
                        assert(p1 == pos + "{\"id\":"@.len());
                        assert(v@.subrange(p1 as int, len) == enc_str(t.id) + tx_t2(t, rest));
                        assert(id@ == t.id && p2 == p1 + enc_str(t.id).len());
                        assert(v@.subrange(p2 as int, len) == ",\"credit\":"@ + tx_t3(t, rest));
                        lemma_skip_head(v@, p2 as int, ",\"credit\":"@, tx_t3(t, rest));
                        assert(p3 == p2 + ",\"credit\":"@.len());
                        assert(v@.subrange(p3 as int, len) == enc_str(t.credit) + tx_t4(t, rest));
                        assert(credit@ == t.credit && p4 == p3 + enc_str(t.credit).len());
                        assert(v@.subrange(p4 as int, len) == ",\"debit\":"@ + tx_t5(t, rest));
                        lemma_skip_head(v@, p4 as int, ",\"debit\":"@, tx_t5(t, rest));
                        assert(p5 == p4 + ",\"debit\":"@.len());
                        assert(v@.subrange(p5 as int, len) == enc_str(t.debit) + tx_t6(t, rest));
                        assert(debit@ == t.debit && p6 == p5 + enc_str(t.debit).len());
                        assert(v@.subrange(p6 as int, len) == ",\"amount\":"@ + tx_t7(t, rest));
                        lemma_skip_head(v@, p6 as int, ",\"amount\":"@, tx_t7(t, rest));
                        assert(p7 == p6 + ",\"amount\":"@.len());
                        assert(v@.subrange(p7 as int, len) == enc_str(crate::amount::amount_chars(t.amount.cents as nat)) + tx_t8(t, rest));
                        assert(amount_text@ == crate::amount::amount_chars(t.amount.cents as nat) && p8 == p7 + enc_str(crate::amount::amount_chars(t.amount.cents as nat)).len());
                        assert(v@.subrange(p8 as int, len) == ",\"memo\":"@ + tx_t9(t, rest));
                        lemma_skip_head(v@, p8 as int, ",\"memo\":"@, tx_t9(t, rest));
                        assert(p9 == p8 + ",\"memo\":"@.len());
                        assert(v@.subrange(p9 as int, len) == enc_str(t.memo) + tx_t10(t, rest));
                        assert(memo@ == t.memo && p10 == p9 + enc_str(t.memo).len());
                        assert(v@.subrange(p10 as int, len) == ",\"date\":"@ + tx_t11(t, rest));
                        lemma_skip_head(v@, p10 as int, ",\"date\":"@, tx_t11(t, rest));
                        assert(p11 == p10 + ",\"date\":"@.len());
                        assert(v@.subrange(p11 as int, len) == enc_str(crate::date::date_chars(t.date)) + ("}"@ + rest));
                        assert(date_text@ == crate::date::date_chars(t.date) && p12 == p11 + enc_str(crate::date::date_chars(t.date)).len());
                    }
                }
            }
            return None;
        },
    };
    let p13 = match expect_lit(v, p12, "}") {
        Some(p) => p,
        None => {
            proof {
                assert forall|t: crate::transaction::TransactionV, rest: Seq<char>|
                    !(v@.subrange(pos as int, len) == enc_transaction(t) + rest
                        && t.date.wf()) by {
                    if v@.subrange(pos as int, len) == enc_transaction(t) + rest && t.date.wf() {
                        lemma_transaction_fields(v@, pos as int, t, rest);
                        lemma_skip_head(v@, pos as int, "{\"id\":"@, enc_str(t.id) + tx_t2(t, rest));
                        assert(p1 == pos + "{\"id\":"@.len());
                        assert(v@.subrange(p1 as int, len) == enc_str(t.id) + tx_t2(t, rest));
                        assert(id@ == t.id && p2 == p1 + enc_str(t.id).len());
                        assert(v@.subrange(p2 as int, len) == ",\"credit\":"@ + tx_t3(t, rest));
                        lemma_skip_head(v@, p2 as int, ",\"credit\":"@, tx_t3(t, rest));
                        assert(p3 == p2 + ",\"credit\":"@.len());
                        assert(v@.subrange(p3 as int, len) == enc_str(t.credit) + tx_t4(t, rest));
                        assert(credit@ == t.credit && p4 == p3 + enc_str(t.credit).len());
                        assert(v@.subrange(p4 as int, len) == ",\"debit\":"@ + tx_t5(t, rest));
                        lemma_skip_head(v@, p4 as int, ",\"debit\":"@, tx_t5(t, rest));
                        assert(p5 == p4 + ",\"debit\":"@.len());
                        assert(v@.subrange(p5 as int, len) == enc_str(t.debit) + tx_t6(t, rest));
                        assert(debit@ == t.debit && p6 == p5 + enc_str(t.debit).len());
                        assert(v@.subrange(p6 as int, len) == ",\"amount\":"@ + tx_t7(t, rest));
                        lemma_skip_head(v@, p6 as int, ",\"amount\":"@, tx_t7(t, rest));
                        assert(p7 == p6 + ",\"amount\":"@.len());
                        assert(v@.subrange(p7 as int, len) == enc_str(crate::amount::amount_chars(t.amount.cents as nat)) + tx_t8(t, rest));
                        assert(amount_text@ == crate::amount::amount_chars(t.amount.cents as nat) && p8 == p7 + enc_str(crate::amount::amount_chars(t.amount.cents as nat)).len());
                        assert(v@.subrange(p8 as int, len) == ",\"memo\":"@ + tx_t9(t, rest));
                        lemma_skip_head(v@, p8 as int, ",\"memo\":"@, tx_t9(t, rest));
                        assert(p9 == p8 + ",\"memo\":"@.len());
                        assert(v@.subrange(p9 as int, len) == enc_str(t.memo) + tx_t10(t, rest));
                        assert(memo@ == t.memo && p10 == p9 + enc_str(t.memo).len());
                        assert(v@.subrange(p10 as int, len) == ",\"date\":"@ + tx_t11(t, rest));
                        lemma_skip_head(v@, p10 as int, ",\"date\":"@, tx_t11(t, rest));
                        assert(p11 == p10 + ",\"date\":"@.len());
                        assert(v@.subrange(p11 as int, len) == enc_str(crate::date::date_chars(t.date)) + ("}"@ + rest));
                        assert(date_text@ == crate::date::date_chars(t.date) && p12 == p11 + enc_str(crate::date::date_chars(t.date)).len());
                        assert(v@.subrange(p12 as int, len) == "}"@ + rest);
                        lemma_skip_head(v@, p12 as int, "}"@, rest);
                    }
                }
            }
            return None;
        },
    };
    let transaction = crate::transaction::Transaction { id, credit, debit, amount, memo, date };
    proof {
        lemma_join(v@, pos as int, p1 as int, p2 as int);
        lemma_join(v@, pos as int, p2 as int, p3 as int);
        lemma_join(v@, pos as int, p3 as int, p4 as int);
        lemma_join(v@, pos as int, p4 as int, p5 as int);
        lemma_join(v@, pos as int, p5 as int, p6 as int);
        lemma_join(v@, pos as int, p6 as int, p7 as int);
        lemma_join(v@, pos as int, p7 as int, p8 as int);
        lemma_join(v@, pos as int, p8 as int, p9 as int);
        lemma_join(v@, pos as int, p9 as int, p10 as int);
        lemma_join(v@, pos as int, p10 as int, p11 as int);
        lemma_join(v@, pos as int, p11 as int, p12 as int);
        lemma_join(v@, pos as int, p12 as int, p13 as int);
        reveal(enc_transaction);
        assert(v@.subrange(pos as int, p13 as int) =~= enc_transaction(transaction@));
        assert forall|t: crate::transaction::TransactionV, rest: Seq<char>|
            v@.subrange(pos as int, len) == enc_transaction(t) + rest
                && t.date.wf() implies transaction@ == t && p13 == pos + enc_transaction(
            t,
        ).len() by {
            lemma_transaction_fields(v@, pos as int, t, rest);
            lemma_skip_head(v@, pos as int, "{\"id\":"@, enc_str(t.id) + tx_t2(t, rest));
            assert(p1 == pos + "{\"id\":"@.len());
            assert(v@.subrange(p1 as int, len) == enc_str(t.id) + tx_t2(t, rest));
            assert(id@ == t.id && p2 == p1 + enc_str(t.id).len());
            assert(v@.subrange(p2 as int, len) == ",\"credit\":"@ + tx_t3(t, rest));
            lemma_skip_head(v@, p2 as int, ",\"credit\":"@, tx_t3(t, rest));
            assert(p3 == p2 + ",\"credit\":"@.len());
            assert(v@.subrange(p3 as int, len) == enc_str(t.credit) + tx_t4(t, rest));
            assert(credit@ == t.credit && p4 == p3 + enc_str(t.credit).len());
            assert(v@.subrange(p4 as int, len) == ",\"debit\":"@ + tx_t5(t, rest));
            lemma_skip_head(v@, p4 as int, ",\"debit\":"@, tx_t5(t, rest));
            assert(p5 == p4 + ",\"debit\":"@.len());
            assert(v@.subrange(p5 as int, len) == enc_str(t.debit) + tx_t6(t, rest));
            assert(debit@ == t.debit && p6 == p5 + enc_str(t.debit).len());
            assert(v@.subrange(p6 as int, len) == ",\"amount\":"@ + tx_t7(t, rest));
            lemma_skip_head(v@, p6 as int, ",\"amount\":"@, tx_t7(t, rest));
            assert(p7 == p6 + ",\"amount\":"@.len());
            assert(v@.subrange(p7 as int, len) == enc_str(crate::amount::amount_chars(t.amount.cents as nat)) + tx_t8(t, rest));
            assert(amount_text@ == crate::amount::amount_chars(t.amount.cents as nat) && p8 == p7 + enc_str(crate::amount::amount_chars(t.amount.cents as nat)).len());
            assert(v@.subrange(p8 as int, len) == ",\"memo\":"@ + tx_t9(t, rest));
            lemma_skip_head(v@, p8 as int, ",\"memo\":"@, tx_t9(t, rest));
            assert(p9 == p8 + ",\"memo\":"@.len());
            assert(v@.subrange(p9 as int, len) == enc_str(t.memo) + tx_t10(t, rest));
            assert(memo@ == t.memo && p10 == p9 + enc_str(t.memo).len());
            assert(v@.subrange(p10 as int, len) == ",\"date\":"@ + tx_t11(t, rest));
            lemma_skip_head(v@, p10 as int, ",\"date\":"@, tx_t11(t, rest));
            assert(p11 == p10 + ",\"date\":"@.len());
            assert(v@.subrange(p11 as int, len) == enc_str(crate::date::date_chars(t.date)) + ("}"@ + rest));
            assert(date_text@ == crate::date::date_chars(t.date) && p12 == p11 + enc_str(crate::date::date_chars(t.date)).len());
            assert(v@.subrange(p12 as int, len) == "}"@ + rest);
            lemma_skip_head(v@, p12 as int, "}"@, rest);
            assert(p13 == p12 + "}"@.len());
            assert(transaction@ =~= t);
        }
    }
    Some((transaction, p13))
}


/// Every transaction in the sequence has a valid calendar date.
pub open spec fn txs_dates_wf(l: Seq<crate::transaction::TransactionV>) -> bool {
    forall|i: int| 0 <= i < l.len() ==> (#[trigger] l[i]).date.wf()
}

/// Dropping the first transaction keeps the dates valid.
proof fn lemma_txs_dates_wf_drop(l: Seq<crate::transaction::TransactionV>)
    requires
        l.len() >= 1,
        txs_dates_wf(l),
    ensures
        txs_dates_wf(l.drop_first()),
{
    assert forall|i: int| 0 <= i < l.drop_first().len() implies (#[trigger] l.drop_first()[i]).date.wf() by {
        assert(l.drop_first()[i] == l[i + 1]);
    }
}

/// Parses one or more comma-separated account records up to and including
/// the closing bracket.
#[verifier::rlimit(100)]
#[verifier::spinoff_prover]
fn parse_account_items(v: &Vec<char>, pos: usize) -> (r: Option<(Vec<crate::account::Account>, usize)>)
    requires
        pos <= v@.len(),
    ensures
        r matches Some(lp) ==> pos <= lp.1 <= v@.len() && lp.0@.len() >= 1 && v@.subrange(
            pos as int,
            lp.1 as int,
        ) == enc_account_items(crate::sorting::accounts_view(lp.0@)) + seq![']'],
        forall|l: Seq<crate::account::AccountV>, rest: Seq<char>|
            l.len() >= 1  && v@.subrange(pos as int, v@.len() as int) == enc_account_items(l)
                + seq![']'] + rest ==> (r matches Some(lp) && crate::sorting::accounts_view(lp.0@) == l && lp.1 == pos
                + enc_account_items(l).len() + 1),
    decreases v@.len() - pos,
{
    proof {
        assert forall|l: Seq<crate::account::AccountV>, rest: Seq<char>|
            l.len() >= 1  && v@.subrange(pos as int, v@.len() as int) == enc_account_items(l)
                + seq![']'] + rest implies v@.subrange(pos as int, v@.len() as int) == enc_account(
            l.first(),
        ) + (if l.len() == 1 {
            seq![']'] + rest
        } else {
            seq![','] + enc_account_items(l.drop_first()) + seq![']'] + rest
        }) by {
            if l.len() == 1 {
                assert(enc_account_items(l) + seq![']'] + rest =~= enc_account(l.first()) + (seq![']']
                    + rest));
            } else {
                assert(enc_account_items(l) + seq![']'] + rest =~= enc_account(l.first()) + (seq![',']
                    + enc_account_items(l.drop_first()) + seq![']'] + rest));
            }
        }
    }
    match parse_account(v, pos) {
        None => None,
        Some((x0, p1)) => {
            proof {
                assert forall|l: Seq<crate::account::AccountV>, rest: Seq<char>|
                    l.len() >= 1  && v@.subrange(pos as int, v@.len() as int) == enc_account_items(
                        l,
                    ) + seq![']'] + rest implies x0@ == l.first() && p1 < v@.len() && v@.subrange(
                    p1 as int,
                    v@.len() as int,
                ) == (if l.len() == 1 {
                    seq![']'] + rest
                } else {
                    seq![','] + enc_account_items(l.drop_first()) + seq![']'] + rest
                }) && v@[p1 as int] == (if l.len() == 1 {
                    ']'
                } else {
                    ','
                }) by {
                    let tail: Seq<char> = if l.len() == 1 {
                        seq![']'] + rest
                    } else {
                        seq![','] + enc_account_items(l.drop_first()) + seq![']'] + rest
                    };
                    lemma_skip_head(v@, pos as int, enc_account(l.first()), tail);
                    assert(v@.subrange(p1 as int, v@.len() as int)[0] == tail[0]);
                    assert(v@[p1 as int] == tail[0]);
                }
            }
            if p1 >= v.len() {
                return None;
            }
            let c = v[p1];
            if c == ',' {
                match parse_account_items(v, p1 + 1) {
                    None => {
                        proof {
                            assert forall|l: Seq<crate::account::AccountV>, rest: Seq<char>|
                                !(l.len() >= 1  && v@.subrange(pos as int, v@.len() as int)
                                    == enc_account_items(l) + seq![']'] + rest) by {
                                if l.len() >= 1  && v@.subrange(pos as int, v@.len() as int)
                                    == enc_account_items(l) + seq![']'] + rest {
                                    assert(l.len() >= 2);
                                    
                                    assert(v@.subrange(p1 as int, v@.len() as int) =~= seq![',']
                                        + (enc_account_items(l.drop_first()) + seq![']'] + rest));
                                    lemma_skip_head(
                                        v@,
                                        p1 as int,
                                        seq![','],
                                        enc_account_items(l.drop_first()) + seq![']'] + rest,
                                    );
                                }
                            }
                        }
                        None
                    },
                    Some((mut items, p2)) => {
                        let ghost tail_items = items@;
                        items.insert(0, x0);
                        proof {
                            assert(items@ =~= seq![x0] + tail_items);
                            let iv = crate::sorting::accounts_view(items@);
                            assert(iv.first() == x0@ && iv.drop_first() =~= crate::sorting::accounts_view(tail_items));
                            assert(iv.len() >= 2);
                            assert(v@.subrange(pos as int, p2 as int) =~= enc_account(x0@) + seq![',']
                                + (enc_account_items(crate::sorting::accounts_view(tail_items)) + seq![']']));
                            assert(enc_account_items(iv) =~= enc_account(x0@) + seq![','] + enc_account_items(
                                crate::sorting::accounts_view(tail_items),
                            ));
                            assert(v@.subrange(pos as int, p2 as int) =~= enc_account_items(iv)
                                + seq![']']);
                            assert forall|l: Seq<crate::account::AccountV>, rest: Seq<char>|
                                l.len() >= 1  && v@.subrange(pos as int, v@.len() as int)
                                    == enc_account_items(l) + seq![']'] + rest implies (iv == l && p2 == pos
                                + enc_account_items(l).len() + 1) by {
                                assert(l.len() >= 2);
                                assert(v@.subrange(pos as int, v@.len() as int) == enc_account(
                                    l.first(),
                                ) + (seq![','] + enc_account_items(l.drop_first()) + seq![']'] + rest));
                                assert(x0@ == l.first());
                                assert(p1 == pos + enc_account(l.first()).len());
                                
                                assert(v@.subrange(p1 as int, v@.len() as int) =~= seq![','] + (
                                enc_account_items(l.drop_first()) + seq![']'] + rest));
                                lemma_skip_head(
                                    v@,
                                    p1 as int,
                                    seq![','],
                                    enc_account_items(l.drop_first()) + seq![']'] + rest,
                                );
                                assert(v@.subrange((p1 + 1) as int, v@.len() as int)
                                    == enc_account_items(l.drop_first()) + seq![']'] + rest);
                                assert(crate::sorting::accounts_view(tail_items) == l.drop_first());
                                assert(p2 == (p1 + 1) + enc_account_items(l.drop_first()).len() + 1);
                                assert(enc_account_items(l) =~= enc_account(l.first()) + seq![',']
                                    + enc_account_items(l.drop_first()));
                                assert(iv.len() == l.len());
                                assert forall|k: int| 0 <= k < l.len() implies iv[k] == l[k] by {
                                    if k == 0 {
                                        assert(iv[0] == iv.first());
                                        assert(l[0] == l.first());
                                    } else {
                                        assert(iv[k] == iv.drop_first()[k - 1]);
                                        assert(l[k] == l.drop_first()[k - 1]);
                                        assert(iv.drop_first()[k - 1] == crate::sorting::accounts_view(tail_items)[k
                                            - 1]);
                                    }
                                }
                                assert(iv =~= l);
                            }
                        }
                        Some((items, p2))
                    },
                }
            } else if c == ']' {
                let mut items: Vec<crate::account::Account> = Vec::new();
                items.push(x0);
                proof {
                    let iv = crate::sorting::accounts_view(items@);
                    assert(iv =~= seq![x0@]);
                    assert(iv.first() == x0@ && iv.len() == 1);
                    assert(enc_account_items(iv) == enc_account(x0@));
                    assert(v@.subrange(pos as int, (p1 + 1) as int) =~= enc_account(x0@) + seq![']']);
                    assert forall|l: Seq<crate::account::AccountV>, rest: Seq<char>|
                        l.len() >= 1  && v@.subrange(pos as int, v@.len() as int)
                            == enc_account_items(l) + seq![']'] + rest implies (iv == l && p1 + 1 == pos
                        + enc_account_items(l).len() + 1) by {
                        assert(l.len() == 1);
                        assert(iv =~= l);
                    }
                }
                Some((items, p1 + 1))
            } else {
                proof {
                    assert forall|l: Seq<crate::account::AccountV>, rest: Seq<char>|
                        !(l.len() >= 1  && v@.subrange(pos as int, v@.len() as int)
                            == enc_account_items(l) + seq![']'] + rest) by {}
                }
                None
            }
        },
    }
}

/// Parses one or more comma-separated transaction records up to and including
/// the closing bracket.
#[verifier::rlimit(100)]
#[verifier::spinoff_prover]
fn parse_transaction_items(v: &Vec<char>, pos: usize) -> (r: Option<(Vec<crate::transaction::Transaction>, usize)>)
    requires
        pos <= v@.len(),
    ensures
        r matches Some(lp) ==> pos <= lp.1 <= v@.len() && lp.0@.len() >= 1 && v@.subrange(
            pos as int,
            lp.1 as int,
        ) == enc_transaction_items(crate::sorting::transactions_view(lp.0@)) + seq![']'] && txs_dates_wf(crate::sorting::transactions_view(lp.0@)),
        forall|l: Seq<crate::transaction::TransactionV>, rest: Seq<char>|
            l.len() >= 1 && txs_dates_wf(l) && v@.subrange(pos as int, v@.len() as int) == enc_transaction_items(l)
                + seq![']'] + rest ==> (r matches Some(lp) && crate::sorting::transactions_view(lp.0@) == l && lp.1 == pos
                + enc_transaction_items(l).len() + 1),
    decreases v@.len() - pos,
{
    proof {
        assert forall|l: Seq<crate::transaction::TransactionV>, rest: Seq<char>|
            l.len() >= 1 && txs_dates_wf(l) && v@.subrange(pos as int, v@.len() as int) == enc_transaction_items(l)
                + seq![']'] + rest implies v@.subrange(pos as int, v@.len() as int) == enc_transaction(
            l.first(),
        ) + (if l.len() == 1 {
            seq![']'] + rest
        } else {
            seq![','] + enc_transaction_items(l.drop_first()) + seq![']'] + rest
        }) by {
            if l.len() == 1 {
                assert(enc_transaction_items(l) + seq![']'] + rest =~= enc_transaction(l.first()) + (seq![']']
                    + rest));
            } else {
                assert(enc_transaction_items(l) + seq![']'] + rest =~= enc_transaction(l.first()) + (seq![',']
                    + enc_transaction_items(l.drop_first()) + seq![']'] + rest));
            }
        }
    }
    match parse_transaction(v, pos) {
        None => None,
        Some((x0, p1)) => {
            proof {
                assert forall|l: Seq<crate::transaction::TransactionV>, rest: Seq<char>|
                    l.len() >= 1 && txs_dates_wf(l) && v@.subrange(pos as int, v@.len() as int) == enc_transaction_items(
                        l,
                    ) + seq![']'] + rest implies x0@ == l.first() && p1 < v@.len() && v@.subrange(
                    p1 as int,
                    v@.len() as int,
                ) == (if l.len() == 1 {
                    seq![']'] + rest
                } else {
                    seq![','] + enc_transaction_items(l.drop_first()) + seq![']'] + rest
                }) && v@[p1 as int] == (if l.len() == 1 {
                    ']'
                } else {
                    ','
                }) by {
                    let tail: Seq<char> = if l.len() == 1 {
                        seq![']'] + rest
                    } else {
                        seq![','] + enc_transaction_items(l.drop_first()) + seq![']'] + rest
                    };
                    lemma_skip_head(v@, pos as int, enc_transaction(l.first()), tail);
                    assert(v@.subrange(p1 as int, v@.len() as int)[0] == tail[0]);
                    assert(v@[p1 as int] == tail[0]);
                }
            }
            if p1 >= v.len() {
                return None;
            }
            let c = v[p1];
            if c == ',' {
                match parse_transaction_items(v, p1 + 1) {
                    None => {
                        proof {
                            assert forall|l: Seq<crate::transaction::TransactionV>, rest: Seq<char>|
                                !(l.len() >= 1 && txs_dates_wf(l) && v@.subrange(pos as int, v@.len() as int)
                                    == enc_transaction_items(l) + seq![']'] + rest) by {
                                if l.len() >= 1 && txs_dates_wf(l) && v@.subrange(pos as int, v@.len() as int)
                                    == enc_transaction_items(l) + seq![']'] + rest {
                                    assert(l.len() >= 2);
                                    lemma_txs_dates_wf_drop(l);
                                    assert(v@.subrange(p1 as int, v@.len() as int) =~= seq![',']
                                        + (enc_transaction_items(l.drop_first()) + seq![']'] + rest));
                                    lemma_skip_head(
                                        v@,
                                        p1 as int,
                                        seq![','],
                                        enc_transaction_items(l.drop_first()) + seq![']'] + rest,
                                    );
                                }
                            }
                        }
                        None
                    },
                    Some((mut items, p2)) => {
                        let ghost tail_items = items@;
                        items.insert(0, x0);
                        proof {
                            assert(items@ =~= seq![x0] + tail_items);
                            let iv = crate::sorting::transactions_view(items@);
                            assert(iv.first() == x0@ && iv.drop_first() =~= crate::sorting::transactions_view(tail_items));
                            assert(iv.len() >= 2);
                            assert(v@.subrange(pos as int, p2 as int) =~= enc_transaction(x0@) + seq![',']
                                + (enc_transaction_items(crate::sorting::transactions_view(tail_items)) + seq![']']));
                            assert(enc_transaction_items(iv) =~= enc_transaction(x0@) + seq![','] + enc_transaction_items(
                                crate::sorting::transactions_view(tail_items),
                            ));
                            assert(v@.subrange(pos as int, p2 as int) =~= enc_transaction_items(iv)
                                + seq![']']);
                            assert forall|i: int|
                                0 <= i < iv.len() implies (#[trigger] iv[i]).date.wf() by {
                                if i == 0 {
                                    assert(iv[0] == iv.first());
                                } else {
                                    assert(iv[i] == iv.drop_first()[i - 1]);
                                    assert(iv.drop_first()[i - 1]
                                        == crate::sorting::transactions_view(tail_items)[i - 1]);
                                }
                            }
                            assert forall|l: Seq<crate::transaction::TransactionV>, rest: Seq<char>|
                                l.len() >= 1 && txs_dates_wf(l) && v@.subrange(pos as int, v@.len() as int)
                                    == enc_transaction_items(l) + seq![']'] + rest implies (iv == l && p2 == pos
                                + enc_transaction_items(l).len() + 1) by {
                                assert(l.len() >= 2);
                                assert(v@.subrange(pos as int, v@.len() as int) == enc_transaction(
                                    l.first(),
                                ) + (seq![','] + enc_transaction_items(l.drop_first()) + seq![']'] + rest));
                                assert(x0@ == l.first());
                                assert(p1 == pos + enc_transaction(l.first()).len());
                                lemma_txs_dates_wf_drop(l);
                                assert(v@.subrange(p1 as int, v@.len() as int) =~= seq![','] + (
                                enc_transaction_items(l.drop_first()) + seq![']'] + rest));
                                lemma_skip_head(
                                    v@,
                                    p1 as int,
                                    seq![','],
                                    enc_transaction_items(l.drop_first()) + seq![']'] + rest,
                                );
                                assert(v@.subrange((p1 + 1) as int, v@.len() as int)
                                    == enc_transaction_items(l.drop_first()) + seq![']'] + rest);
                                assert(crate::sorting::transactions_view(tail_items) == l.drop_first());
                                assert(p2 == (p1 + 1) + enc_transaction_items(l.drop_first()).len() + 1);
                                assert(enc_transaction_items(l) =~= enc_transaction(l.first()) + seq![',']
                                    + enc_transaction_items(l.drop_first()));
                                assert(iv.len() == l.len());
                                assert forall|k: int| 0 <= k < l.len() implies iv[k] == l[k] by {
                                    if k == 0 {
                                        assert(iv[0] == iv.first());
                                        assert(l[0] == l.first());
                                    } else {
                                        assert(iv[k] == iv.drop_first()[k - 1]);
                                        assert(l[k] == l.drop_first()[k - 1]);
                                        assert(iv.drop_first()[k - 1] == crate::sorting::transactions_view(tail_items)[k
                                            - 1]);
                                    }
                                }
                                assert(iv =~= l);
                            }
                        }
                        Some((items, p2))
                    },
                }
            } else if c == ']' {
                let mut items: Vec<crate::transaction::Transaction> = Vec::new();
                items.push(x0);
                proof {
                    let iv = crate::sorting::transactions_view(items@);
                    assert(iv =~= seq![x0@]);
                    assert(iv.first() == x0@ && iv.len() == 1);
                    assert(enc_transaction_items(iv) == enc_transaction(x0@));
                    assert forall|i: int| 0 <= i < iv.len() implies (#[trigger] iv[i]).date.wf() by {
                        assert(iv[i] == x0@);
                    }
                    assert(v@.subrange(pos as int, (p1 + 1) as int) =~= enc_transaction(x0@) + seq![']']);
                    assert forall|l: Seq<crate::transaction::TransactionV>, rest: Seq<char>|
                        l.len() >= 1 && txs_dates_wf(l) && v@.subrange(pos as int, v@.len() as int)
                            == enc_transaction_items(l) + seq![']'] + rest implies (iv == l && p1 + 1 == pos
                        + enc_transaction_items(l).len() + 1) by {
                        assert(l.len() == 1);
                        assert(iv =~= l);
                    }
                }
                Some((items, p1 + 1))
            } else {
                proof {
                    assert forall|l: Seq<crate::transaction::TransactionV>, rest: Seq<char>|
                        !(l.len() >= 1 && txs_dates_wf(l) && v@.subrange(pos as int, v@.len() as int)
                            == enc_transaction_items(l) + seq![']'] + rest) by {}
                }
                None
            }
        },
    }
}

/// Writes the whole ledger as one document.
pub fn encode_company(c: &crate::company::Company) -> (r: String)
    ensures
        r@ == enc_company(c@),
{
    let mut out: Vec<char> = Vec::new();
    push_lit(&mut out, "{\"accounts\":");
    push_account_list(&mut out, &c.accounts);
    push_lit(&mut out, ",\"transactions\":");
    push_transaction_list(&mut out, &c.transactions);
    push_lit(&mut out, "}");
    proof {
        assert(out@ =~= enc_company(c@));
    }
    chars_to_string(&out)
}


/// Parses a bracketed list of account records at `pos`.
#[verifier::rlimit(100)]
#[verifier::spinoff_prover]
fn parse_account_list(v: &Vec<char>, pos: usize) -> (r: Option<(Vec<crate::account::Account>, usize)>)
    requires
        pos <= v@.len(),
    ensures
        r matches Some(lp) ==> pos <= lp.1 <= v@.len() && v@.subrange(pos as int, lp.1 as int)
            == enc_account_list(crate::sorting::accounts_view(lp.0@)),
        forall|l: Seq<crate::account::AccountV>, rest: Seq<char>|
            true  && v@.subrange(pos as int, v@.len() as int) == enc_account_list(l) + rest ==> (r
                matches Some(lp) && crate::sorting::accounts_view(lp.0@) == l && lp.1 == pos + enc_account_list(l).len()),
{
    proof {
        reveal_strlit("{\"id\":");
        assert forall|l: Seq<crate::account::AccountV>, rest: Seq<char>|
            true  && v@.subrange(pos as int, v@.len() as int) == enc_account_list(l)
                + rest implies pos < v@.len() && v@[pos as int] == '[' && v@.subrange(
            (pos + 1) as int,
            v@.len() as int,
        ) == enc_account_items(l) + seq![']'] + rest by {
            assert(enc_account_list(l) + rest =~= seq!['['] + (enc_account_items(l) + seq![']'] + rest));
            assert((seq!['['] + (enc_account_items(l) + seq![']'] + rest))[0] == '[');
            lemma_skip_head(v@, pos as int, seq!['['], enc_account_items(l) + seq![']'] + rest);
        }
    }
    if pos >= v.len() || v[pos] != '[' {
        return None;
    }
    if pos + 1 < v.len() && v[pos + 1] == ']' {
        let items: Vec<crate::account::Account> = Vec::new();
        proof {
            let iv = crate::sorting::accounts_view(items@);
            assert(iv =~= Seq::<crate::account::AccountV>::empty());
            assert(enc_account_items(iv) =~= Seq::<char>::empty());
            assert(v@.subrange(pos as int, (pos + 2) as int) =~= enc_account_list(iv));
            assert forall|l: Seq<crate::account::AccountV>, rest: Seq<char>|
                true  && v@.subrange(pos as int, v@.len() as int) == enc_account_list(l)
                    + rest implies (iv == l && pos + 2 == pos + enc_account_list(l).len()) by {
                assert(v@.subrange((pos + 1) as int, v@.len() as int) == enc_account_items(l) + seq![']']
                    + rest);
                if l.len() >= 1 {
                    reveal(enc_account);
                    assert((enc_account_items(l) + seq![']'] + rest)[0] == enc_account(l.first())[0]);
                    assert(enc_account(l.first())[0] == '{');
                    assert(v@[(pos + 1) as int] == '{');
                    assert(false);
                }
                assert(iv =~= l);
            }
        }
        return Some((items, pos + 2));
    }
    match parse_account_items(v, pos + 1) {
        None => {
            proof {
                assert forall|l: Seq<crate::account::AccountV>, rest: Seq<char>|
                    !(true  && v@.subrange(pos as int, v@.len() as int) == enc_account_list(l)
                        + rest) by {
                    if true  && v@.subrange(pos as int, v@.len() as int) == enc_account_list(l)
                        + rest {
                        assert(v@.subrange((pos + 1) as int, v@.len() as int) == enc_account_items(l)
                            + seq![']'] + rest);
                        if l.len() == 0 {
                            assert(enc_account_items(l).len() == 0);
                            assert((enc_account_items(l) + seq![']'] + rest)[0] == ']');
                            assert(v@[(pos + 1) as int] == ']');
                            assert(pos + 1 < v@.len());
                            assert(false);
                        } else {
                            assert(false);
                        }
                    }
                }
            }
            None
        },
        Some((items, p2)) => {
            proof {
                assert(v@.subrange(pos as int, p2 as int) =~= seq!['['] + v@.subrange(
                    (pos + 1) as int,
                    p2 as int,
                ));
                assert(v@.subrange(pos as int, p2 as int) =~= enc_account_list(crate::sorting::accounts_view(items@)));
                assert forall|l: Seq<crate::account::AccountV>, rest: Seq<char>|
                    true  && v@.subrange(pos as int, v@.len() as int) == enc_account_list(l)
                        + rest implies (crate::sorting::accounts_view(items@) == l && p2 == pos + enc_account_list(
                    l,
                ).len()) by {
                    assert(v@.subrange((pos + 1) as int, v@.len() as int) == enc_account_items(l)
                        + seq![']'] + rest);
                    if l.len() == 0 {
                        assert(enc_account_items(l).len() == 0);
                        assert((enc_account_items(l) + seq![']'] + rest)[0] == ']');
                        assert(v@[(pos + 1) as int] == ']');
                        assert(pos + 1 < v@.len());
                        assert(false);
                    }
                }
            }
            Some((items, p2))
        },
    }
}

/// Parses a bracketed list of transaction records at `pos`.
#[verifier::rlimit(100)]
#[verifier::spinoff_prover]
fn parse_transaction_list(v: &Vec<char>, pos: usize) -> (r: Option<(Vec<crate::transaction::Transaction>, usize)>)
    requires
        pos <= v@.len(),
    ensures
        r matches Some(lp) ==> pos <= lp.1 <= v@.len() && v@.subrange(pos as int, lp.1 as int)
            == enc_transaction_list(crate::sorting::transactions_view(lp.0@)) && txs_dates_wf(crate::sorting::transactions_view(lp.0@)),
        forall|l: Seq<crate::transaction::TransactionV>, rest: Seq<char>|
            true && txs_dates_wf(l) && v@.subrange(pos as int, v@.len() as int) == enc_transaction_list(l) + rest ==> (r
                matches Some(lp) && crate::sorting::transactions_view(lp.0@) == l && lp.1 == pos + enc_transaction_list(l).len()),
{
    proof {
        reveal_strlit("{\"id\":");
        assert forall|l: Seq<crate::transaction::TransactionV>, rest: Seq<char>|
            true && txs_dates_wf(l) && v@.subrange(pos as int, v@.len() as int) == enc_transaction_list(l)
                + rest implies pos < v@.len() && v@[pos as int] == '[' && v@.subrange(
            (pos + 1) as int,
            v@.len() as int,
        ) == enc_transaction_items(l) + seq![']'] + rest by {
            assert(enc_transaction_list(l) + rest =~= seq!['['] + (enc_transaction_items(l) + seq![']'] + rest));
            assert((seq!['['] + (enc_transaction_items(l) + seq![']'] + rest))[0] == '[');
            lemma_skip_head(v@, pos as int, seq!['['], enc_transaction_items(l) + seq![']'] + rest);
        }
    }
    if pos >= v.len() || v[pos] != '[' {
        return None;
    }
    if pos + 1 < v.len() && v[pos + 1] == ']' {
        let items: Vec<crate::transaction::Transaction> = Vec::new();
        proof {
            let iv = crate::sorting::transactions_view(items@);
            assert(iv =~= Seq::<crate::transaction::TransactionV>::empty());
            assert(enc_transaction_items(iv) =~= Seq::<char>::empty());
            assert(v@.subrange(pos as int, (pos + 2) as int) =~= enc_transaction_list(iv));
            assert forall|l: Seq<crate::transaction::TransactionV>, rest: Seq<char>|
                true && txs_dates_wf(l) && v@.subrange(pos as int, v@.len() as int) == enc_transaction_list(l)
                    + rest implies (iv == l && pos + 2 == pos + enc_transaction_list(l).len()) by {
                assert(v@.subrange((pos + 1) as int, v@.len() as int) == enc_transaction_items(l) + seq![']']
                    + rest);
                if l.len() >= 1 {
                    reveal(enc_transaction);
                    assert((enc_transaction_items(l) + seq![']'] + rest)[0] == enc_transaction(l.first())[0]);
                    assert(enc_transaction(l.first())[0] == '{');
                    assert(v@[(pos + 1) as int] == '{');
                    assert(false);
                }
                assert(iv =~= l);
            }
        }
        return Some((items, pos + 2));
    }
    match parse_transaction_items(v, pos + 1) {
        None => {
            proof {
                assert forall|l: Seq<crate::transaction::TransactionV>, rest: Seq<char>|
                    !(true && txs_dates_wf(l) && v@.subrange(pos as int, v@.len() as int) == enc_transaction_list(l)
                        + rest) by {
                    if true && txs_dates_wf(l) && v@.subrange(pos as int, v@.len() as int) == enc_transaction_list(l)
                        + rest {
                        assert(v@.subrange((pos + 1) as int, v@.len() as int) == enc_transaction_items(l)
                            + seq![']'] + rest);
                        if l.len() == 0 {
                            assert(enc_transaction_items(l).len() == 0);
                            assert((enc_transaction_items(l) + seq![']'] + rest)[0] == ']');
                            assert(v@[(pos + 1) as int] == ']');
                            assert(pos + 1 < v@.len());
                            assert(false);
                        } else {
                            assert(false);
                        }
                    }
                }
            }
            None
        },
        Some((items, p2)) => {
            proof {
                assert(v@.subrange(pos as int, p2 as int) =~= seq!['['] + v@.subrange(
                    (pos + 1) as int,
                    p2 as int,
                ));
                assert(v@.subrange(pos as int, p2 as int) =~= enc_transaction_list(crate::sorting::transactions_view(items@)));
                assert forall|l: Seq<crate::transaction::TransactionV>, rest: Seq<char>|
                    true && txs_dates_wf(l) && v@.subrange(pos as int, v@.len() as int) == enc_transaction_list(l)
                        + rest implies (crate::sorting::transactions_view(items@) == l && p2 == pos + enc_transaction_list(
                    l,
                ).len()) by {
                    assert(v@.subrange((pos + 1) as int, v@.len() as int) == enc_transaction_items(l)
                        + seq![']'] + rest);
                    if l.len() == 0 {
                        assert(enc_transaction_items(l).len() == 0);
                        assert((enc_transaction_items(l) + seq![']'] + rest)[0] == ']');
                        assert(v@[(pos + 1) as int] == ']');
                        assert(pos + 1 < v@.len());
                        assert(false);
                    }
                }
            }
            Some((items, p2))
        },
    }
}

/// What follows the opening key of a document, piece by piece.
spec fn comp_t2(c: crate::company::CompanyV, rest: Seq<char>) -> Seq<char> {
    enc_account_list(c.accounts) + comp_t3(c, rest)
}

spec fn comp_t3(c: crate::company::CompanyV, rest: Seq<char>) -> Seq<char> {
    ",\"transactions\":"@ + comp_t4(c, rest)
}

spec fn comp_t4(c: crate::company::CompanyV, rest: Seq<char>) -> Seq<char> {
    enc_transaction_list(c.transactions) + ("}"@ + rest)
}

/// Where each part of an encoded document stands in the input.
#[verifier::rlimit(100)]
#[verifier::spinoff_prover]
proof fn lemma_company_fields(
    v: Seq<char>,
    pos: int,
    c: crate::company::CompanyV,
    rest: Seq<char>,
)
    requires
        0 <= pos <= v.len(),
        v.subrange(pos, v.len() as int) == enc_company(c) + rest,
    ensures
        v.subrange(pos, v.len() as int) == "{\"accounts\":"@ + comp_t2(c, rest),
        v.subrange(pos + "{\"accounts\":"@.len(), v.len() as int) == enc_account_list(c.accounts)
            + comp_t3(c, rest),
        v.subrange(
            pos + "{\"accounts\":"@.len() + enc_account_list(c.accounts).len(),
            v.len() as int,
        ) == ",\"transactions\":"@ + comp_t4(c, rest),
        v.subrange(
            pos + "{\"accounts\":"@.len() + enc_account_list(c.accounts).len()
                + ",\"transactions\":"@.len(),
            v.len() as int,
        ) == enc_transaction_list(c.transactions) + ("}"@ + rest),
        v.subrange(
            pos + "{\"accounts\":"@.len() + enc_account_list(c.accounts).len()
                + ",\"transactions\":"@.len() + enc_transaction_list(c.transactions).len(),
            v.len() as int,
        ) == "}"@ + rest,
        pos + enc_company(c).len() == pos + "{\"accounts\":"@.len() + enc_account_list(
            c.accounts,
        ).len() + ",\"transactions\":"@.len() + enc_transaction_list(c.transactions).len()
            + "}"@.len(),
        pos + enc_company(c).len() <= v.len(),
{
    assert(enc_company(c) + rest =~= "{\"accounts\":"@ + comp_t2(c, rest));
    lemma_skip_head(v, pos, "{\"accounts\":"@, comp_t2(c, rest));
    let q1 = pos + "{\"accounts\":"@.len();
    lemma_skip_head(v, q1, enc_account_list(c.accounts), comp_t3(c, rest));
    let q2 = q1 + enc_account_list(c.accounts).len();
    lemma_skip_head(v, q2, ",\"transactions\":"@, comp_t4(c, rest));
    let q3 = q2 + ",\"transactions\":"@.len();
    lemma_skip_head(v, q3, enc_transaction_list(c.transactions), "}"@ + rest);
    let q4 = q3 + enc_transaction_list(c.transactions).len();
    lemma_skip_head(v, q4, "}"@, rest);
}

/// Reads a whole document back into a ledger.
///
/// The parser is strict: it accepts exactly the writer's output, so a
/// document written by `encode_company` decodes to the ledger it was
/// written from, provided every transaction date is a valid calendar date.
#[verifier::rlimit(100)]
#[verifier::spinoff_prover]
pub fn decode_company(s: &str) -> (r: Result<crate::company::Company, DecodeError>)
    ensures
        r matches Ok(c) ==> s@ == enc_company(c@),
        forall|cv: crate::company::CompanyV|
            txs_dates_wf(cv.transactions) && s@ == enc_company(cv) ==> (r matches Ok(c) && c@
                == cv),
{
    let v = crate::text::str_to_chars(s);
    let ghost len = v@.len() as int;
    proof {
        assert(v@.subrange(0, len) =~= v@);
        assert forall|cv: crate::company::CompanyV|
            txs_dates_wf(cv.transactions) && s@ == enc_company(cv) implies v@.subrange(0, len)
            == enc_company(cv) + Seq::<char>::empty() by {
            assert(enc_company(cv) + Seq::<char>::empty() =~= enc_company(cv));
        }
    }
    let p1 = match expect_lit(&v, 0, "{\"accounts\":") {
        Some(p) => p,
        None => {
            proof {
                assert forall|cv: crate::company::CompanyV|
                    !(txs_dates_wf(cv.transactions) && s@ == enc_company(cv)) by {
                    if txs_dates_wf(cv.transactions) && s@ == enc_company(cv) {
                        lemma_company_fields(v@, 0, cv, Seq::<char>::empty());
                        lemma_skip_head(v@, 0, "{\"accounts\":"@, comp_t2(cv, Seq::<char>::empty()));
                    }
                }
            }
            return Err(DecodeError::Malformed);
        },
    };
    let (accounts, p2) = match parse_account_list(&v, p1) {
        Some(lp) => lp,
        None => {
            proof {
                assert forall|cv: crate::company::CompanyV|
                    !(txs_dates_wf(cv.transactions) && s@ == enc_company(cv)) by {
                    if txs_dates_wf(cv.transactions) && s@ == enc_company(cv) {
                        lemma_company_fields(v@, 0, cv, Seq::<char>::empty());
                        assert(p1 == "{\"accounts\":"@.len());
                        assert(v@.subrange(p1 as int, len) == enc_account_list(cv.accounts)
                            + comp_t3(cv, Seq::<char>::empty()));
                    }
                }
            }
            return Err(DecodeError::Malformed);
        },
    };
    let p3 = match expect_lit(&v, p2, ",\"transactions\":") {
        Some(p) => p,
        None => {
            proof {
                assert forall|cv: crate::company::CompanyV|
                    !(txs_dates_wf(cv.transactions) && s@ == enc_company(cv)) by {
                    if txs_dates_wf(cv.transactions) && s@ == enc_company(cv) {
                        lemma_company_fields(v@, 0, cv, Seq::<char>::empty());
                        assert(p1 == "{\"accounts\":"@.len());
                        assert(v@.subrange(p1 as int, len) == enc_account_list(cv.accounts)
                            + comp_t3(cv, Seq::<char>::empty()));
                        assert(p2 == p1 + enc_account_list(cv.accounts).len());
                        assert(v@.subrange(p2 as int, len) == ",\"transactions\":"@ + comp_t4(
                            cv,
                            Seq::<char>::empty(),
                        ));
                        lemma_skip_head(
                            v@,
                            p2 as int,
                            ",\"transactions\":"@,
                            comp_t4(cv, Seq::<char>::empty()),
                        );
                    }
                }
            }
            return Err(DecodeError::Malformed);
        },
    };
    let (transactions, p4) = match parse_transaction_list(&v, p3) {
        Some(lp) => lp,
        None => {
            proof {
                assert forall|cv: crate::company::CompanyV|
                    !(txs_dates_wf(cv.transactions) && s@ == enc_company(cv)) by {
                    if txs_dates_wf(cv.transactions) && s@ == enc_company(cv) {
                        lemma_company_fields(v@, 0, cv, Seq::<char>::empty());
                        assert(p1 == "{\"accounts\":"@.len());
                        assert(v@.subrange(p1 as int, len) == enc_account_list(cv.accounts)
                            + comp_t3(cv, Seq::<char>::empty()));
                        assert(p2 == p1 + enc_account_list(cv.accounts).len());
                        assert(v@.subrange(p2 as int, len) == ",\"transactions\":"@ + comp_t4(
                            cv,
                            Seq::<char>::empty(),
                        ));
                        assert(p3 == p2 + ",\"transactions\":"@.len());
                        assert(v@.subrange(p3 as int, len) == enc_transaction_list(cv.transactions)
                            + ("}"@ + Seq::<char>::empty()));
                    }
                }
            }
            return Err(DecodeError::Malformed);
        },
    };
    let p5 = match expect_lit(&v, p4, "}") {
        Some(p) => p,
        None => {
            proof {
                assert forall|cv: crate::company::CompanyV|
                    !(txs_dates_wf(cv.transactions) && s@ == enc_company(cv)) by {
                    if txs_dates_wf(cv.transactions) && s@ == enc_company(cv) {
                        lemma_company_fields(v@, 0, cv, Seq::<char>::empty());
                        assert(p1 == "{\"accounts\":"@.len());
                        assert(v@.subrange(p1 as int, len) == enc_account_list(cv.accounts)
                            + comp_t3(cv, Seq::<char>::empty()));
                        assert(p2 == p1 + enc_account_list(cv.accounts).len());
                        assert(v@.subrange(p2 as int, len) == ",\"transactions\":"@ + comp_t4(
                            cv,
                            Seq::<char>::empty(),
                        ));
                        assert(p3 == p2 + ",\"transactions\":"@.len());
                        assert(v@.subrange(p3 as int, len) == enc_transaction_list(cv.transactions)
                            + ("}"@ + Seq::<char>::empty()));
                        assert(p4 == p3 + enc_transaction_list(cv.transactions).len());
                        assert(v@.subrange(p4 as int, len) == "}"@ + Seq::<char>::empty());
                        lemma_skip_head(v@, p4 as int, "}"@, Seq::<char>::empty());
                    }
                }
            }
            return Err(DecodeError::Malformed);
        },
    };
    if p5 != v.len() {
        proof {
            assert forall|cv: crate::company::CompanyV|
                !(txs_dates_wf(cv.transactions) && s@ == enc_company(cv)) by {
                if txs_dates_wf(cv.transactions) && s@ == enc_company(cv) {
                    lemma_company_fields(v@, 0, cv, Seq::<char>::empty());
                    assert(p1 == "{\"accounts\":"@.len());
                    assert(v@.subrange(p1 as int, len) == enc_account_list(cv.accounts) + comp_t3(
                        cv,
                        Seq::<char>::empty(),
                    ));
                    assert(p2 == p1 + enc_account_list(cv.accounts).len());
                    assert(v@.subrange(p2 as int, len) == ",\"transactions\":"@ + comp_t4(
                        cv,
                        Seq::<char>::empty(),
                    ));
                    assert(p3 == p2 + ",\"transactions\":"@.len());
                    assert(v@.subrange(p3 as int, len) == enc_transaction_list(cv.transactions) + (
                    "}"@ + Seq::<char>::empty()));
                    assert(p4 == p3 + enc_transaction_list(cv.transactions).len());
                    assert(p5 == p4 + "}"@.len());
                    assert(p5 == enc_company(cv).len());
                    assert(v@.len() == enc_company(cv).len());
                }
            }
        }
        return Err(DecodeError::Malformed);
    }
    let company = crate::company::Company { accounts, transactions };
    proof {
        lemma_join(v@, 0, p1 as int, p2 as int);
        lemma_join(v@, 0, p2 as int, p3 as int);
        lemma_join(v@, 0, p3 as int, p4 as int);
        lemma_join(v@, 0, p4 as int, p5 as int);
        assert(v@.subrange(0, p5 as int) =~= enc_company(company@));
        assert(v@.subrange(0, len) =~= v@);
        assert(s@ == enc_company(company@));
        assert forall|cv: crate::company::CompanyV|
            txs_dates_wf(cv.transactions) && s@ == enc_company(cv) implies company@ == cv by {
            lemma_company_fields(v@, 0, cv, Seq::<char>::empty());
            assert(p1 == "{\"accounts\":"@.len());
            assert(v@.subrange(p1 as int, len) == enc_account_list(cv.accounts) + comp_t3(
                cv,
                Seq::<char>::empty(),
            ));
            assert(crate::sorting::accounts_view(accounts@) == cv.accounts);
            assert(p2 == p1 + enc_account_list(cv.accounts).len());
            assert(v@.subrange(p2 as int, len) == ",\"transactions\":"@ + comp_t4(
                cv,
                Seq::<char>::empty(),
            ));
            assert(p3 == p2 + ",\"transactions\":"@.len());
            assert(v@.subrange(p3 as int, len) == enc_transaction_list(cv.transactions) + ("}"@
                + Seq::<char>::empty()));
            assert(crate::sorting::transactions_view(transactions@) == cv.transactions);
            assert(company@ =~= cv);
        }
    }
    Ok(company)
}

} // verus!
