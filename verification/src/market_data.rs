//! The record structure of option-quote CSV files
//! (`strike, maturity, mid_price[, bid[, ask]]`).
//!
//! The text is cut into lines at `\n`; the first line is a header and is
//! skipped; each other line is cut into fields at `,`, and a line with fewer
//! than three fields is not a quote. The bytes `\n` and `,` never occur inside
//! a multi-byte UTF-8 sequence, so the cuts fall on character boundaries.
//! Reading numbers out of the fields (after trimming white space, which also
//! removes a `\r` left by a `\r\n` line end) is left to the caller.
use vstd::prelude::*;

verus! {

/// Line separator.
pub const NEWLINE: u8 = 0x0Au8;

/// Field separator.
pub const COMMA: u8 = 0x2Cu8;

/// The pieces of `s` between occurrences of `sep` (as `str::split` gives
/// them: there is always at least one piece).
pub open spec fn split_bytes(s: Seq<u8>, sep: u8) -> Seq<Seq<u8>>
    decreases s.len(),
{
    if s.len() == 0 {
        seq![Seq::<u8>::empty()]
    } else {
        let r = split_bytes(s.drop_last(), sep);
        if s.last() == sep {
            r.push(Seq::<u8>::empty())
        } else {
            r.update(r.len() - 1, r.last().push(s.last()))
        }
    }
}

/// There is always at least one piece.
pub proof fn lemma_split_nonempty(s: Seq<u8>, sep: u8)
    ensures
        split_bytes(s, sep).len() >= 1,
    decreases s.len(),
{
    if s.len() > 0 {
        lemma_split_nonempty(s.drop_last(), sep);
    }
}

/// A text without the separator is a single piece: itself.
pub proof fn lemma_split_without_separator(s: Seq<u8>, sep: u8)
    requires
        !s.contains(sep),
    ensures
        split_bytes(s, sep) == seq![s],
    decreases s.len(),
{
    if s.len() > 0 {
        let p = s.drop_last();
        assert(!p.contains(sep)) by {
            if p.contains(sep) {
                let i = choose|i: int| 0 <= i < p.len() && p[i] == sep;
                assert(s[i] == sep);
            }
        }
        lemma_split_without_separator(p, sep);
        assert(s.last() != sep) by {
            assert(s[s.len() - 1] == s.last());
        }
        assert(p.push(s.last()) =~= s);
        assert(seq![p].update(0, p.push(s.last())) =~= seq![s]);
    } else {
        assert(s =~= Seq::<u8>::empty());
        assert(split_bytes(s, sep) =~= seq![s]);
    }
}

/// Cutting `a`, the separator, then `b` gives the pieces of `a` followed by
/// the pieces of `b`.
pub proof fn lemma_split_concat(a: Seq<u8>, b: Seq<u8>, sep: u8)
    ensures
        split_bytes(a + seq![sep] + b, sep) == split_bytes(a, sep) + split_bytes(b, sep),
    decreases b.len(),
{
    let whole = a + seq![sep] + b;
    if b.len() == 0 {
        assert(whole.drop_last() =~= a);
        assert(split_bytes(b, sep) =~= seq![Seq::<u8>::empty()]);
        assert(split_bytes(a, sep).push(Seq::<u8>::empty()) =~= split_bytes(a, sep) + split_bytes(
            b,
            sep,
        ));
    } else {
        let b1 = b.drop_last();
        lemma_split_concat(a, b1, sep);
        assert(whole.drop_last() =~= a + seq![sep] + b1);
        assert(whole.last() == b.last());
        lemma_split_nonempty(b1, sep);
        let ra = split_bytes(a, sep);
        let rb = split_bytes(b1, sep);
        if b.last() == sep {
            assert((ra + rb).push(Seq::<u8>::empty()) =~= ra + rb.push(Seq::<u8>::empty()));
        } else {
            assert((ra + rb).update((ra + rb).len() - 1, (ra + rb).last().push(b.last())) =~= ra
                + rb.update(rb.len() - 1, rb.last().push(b.last())));
        }
    }
}

/// The pieces joined back with the separator between them.
pub open spec fn join_bytes(ps: Seq<Seq<u8>>, sep: u8) -> Seq<u8>
    decreases ps.len(),
{
    if ps.len() == 0 {
        Seq::empty()
    } else if ps.len() == 1 {
        ps[0]
    } else {
        join_bytes(ps.drop_last(), sep) + seq![sep] + ps.last()
    }
}

/// Cutting loses nothing and cuts at every separator: joining the pieces
/// with the separator gives the text back, and no piece holds the separator.
pub proof fn lemma_split_join(s: Seq<u8>, sep: u8)
    ensures
        join_bytes(split_bytes(s, sep), sep) == s,
        forall|i: int|
            0 <= i < split_bytes(s, sep).len() ==> !(#[trigger] split_bytes(s, sep)[i]).contains(sep),
    decreases s.len(),
{
    if s.len() == 0 {
        assert(split_bytes(s, sep) =~= seq![Seq::<u8>::empty()]);
        assert(s =~= Seq::<u8>::empty());
    } else {
        let p = s.drop_last();
        lemma_split_join(p, sep);
        lemma_split_nonempty(p, sep);
        let r = split_bytes(p, sep);
        let c = s.last();
        if c == sep {
            let q = r.push(Seq::<u8>::empty());
            assert(q.drop_last() =~= r);
            assert(join_bytes(q, sep) =~= s);
            assert forall|i: int| 0 <= i < q.len() implies !(#[trigger] q[i]).contains(sep) by {
                if i < r.len() {
                    assert(q[i] == r[i]);
                }
            }
        } else {
            let q = r.update(r.len() - 1, r.last().push(c));
            if r.len() == 1 {
                assert(join_bytes(q, sep) =~= s);
            } else {
                assert(q.drop_last() =~= r.drop_last());
                assert(join_bytes(r, sep) == join_bytes(r.drop_last(), sep) + seq![sep] + r.last());
                assert(q.len() > 1);
                assert(q.last() == r.last().push(c));
                assert(join_bytes(q, sep) == join_bytes(q.drop_last(), sep) + seq![sep] + q.last());
                assert(s =~= p.push(c));
                assert(join_bytes(q, sep) =~= s);
            }
            assert forall|i: int| 0 <= i < q.len() implies !(#[trigger] q[i]).contains(sep) by {
                if i < r.len() - 1 {
                    assert(q[i] == r[i]);
                } else {
                    assert(!r[r.len() - 1].contains(sep));
                    if q[i].contains(sep) {
                        let j = choose|j: int| 0 <= j < q[i].len() && q[i][j] == sep;
                        if j < r.last().len() {
                            assert(r.last()[j] == sep);
                        }
                    }
                }
            }
        }
    }
}

/// A line of the file is a quote when it has at least three fields.
pub open spec fn is_quote_line(line: Seq<u8>) -> bool {
    split_bytes(line, COMMA).len() >= 3
}

/// The field lists of the quote lines, header excluded.
pub open spec fn quote_records(text: Seq<u8>) -> Seq<Seq<Seq<u8>>> {
    split_bytes(text, NEWLINE).drop_first().filter(|l: Seq<u8>| is_quote_line(l)).map_values(
        |l: Seq<u8>| split_bytes(l, COMMA),
    )
}

/// Every line after the first is read, the last one included whether or not
/// the text ends with a newline: the records of a header line followed by a
/// body are those of the body's quote lines, in order.
pub proof fn lemma_records_after_header(header: Seq<u8>, body: Seq<u8>)
    requires
        !header.contains(NEWLINE),
    ensures
        quote_records(header + seq![NEWLINE] + body) == split_bytes(body, NEWLINE).filter(
            |l: Seq<u8>| is_quote_line(l),
        ).map_values(|l: Seq<u8>| split_bytes(l, COMMA)),
{
    lemma_split_concat(header, body, NEWLINE);
    lemma_split_without_separator(header, NEWLINE);
    assert((seq![header] + split_bytes(body, NEWLINE)).drop_first() =~= split_bytes(body, NEWLINE));
}

/// A header line and one quote line, with or without a final newline, give
/// exactly the fields of that line.
pub proof fn lemma_single_quote_line(header: Seq<u8>, line: Seq<u8>)
    requires
        !header.contains(NEWLINE),
        !line.contains(NEWLINE),
        is_quote_line(line),
    ensures
        quote_records(header + seq![NEWLINE] + line) == seq![split_bytes(line, COMMA)],
        quote_records(header + seq![NEWLINE] + line + seq![NEWLINE]) == seq![
            split_bytes(line, COMMA),
        ],
{
    reveal_with_fuel(Seq::<_>::filter, 3);
    lemma_records_after_header(header, line);
    lemma_split_without_separator(line, NEWLINE);
    assert(seq![line].filter(|l: Seq<u8>| is_quote_line(l)) =~= seq![line]) by {
        assert(seq![line].drop_last() =~= Seq::<Seq<u8>>::empty());
    }
    assert(header + seq![NEWLINE] + line + seq![NEWLINE] =~= header + seq![NEWLINE] + (line
        + seq![NEWLINE]));
    lemma_records_after_header(header, line + seq![NEWLINE]);
    lemma_split_concat(line, Seq::<u8>::empty(), NEWLINE);
    assert(line + seq![NEWLINE] + Seq::<u8>::empty() =~= line + seq![NEWLINE]);
    assert(split_bytes(Seq::<u8>::empty(), NEWLINE) =~= seq![Seq::<u8>::empty()]);
    let two = seq![line, Seq::<u8>::empty()];
    assert(split_bytes(line + seq![NEWLINE], NEWLINE) =~= two);
    assert(!is_quote_line(Seq::<u8>::empty())) by {
        assert(split_bytes(Seq::<u8>::empty(), COMMA) =~= seq![Seq::<u8>::empty()]);
    }
    assert(two.drop_last() =~= seq![line]);
    assert(two.filter(|l: Seq<u8>| is_quote_line(l)) =~= seq![line]);
}

/// The byte contents of a list of byte vectors.
pub open spec fn pieces(v: Seq<Vec<u8>>) -> Seq<Seq<u8>> {
    v.map_values(|x: Vec<u8>| x@)
}

/// The byte contents of a list of field lists.
pub open spec fn records(v: Seq<Vec<Vec<u8>>>) -> Seq<Seq<Seq<u8>>> {
    v.map_values(|x: Vec<Vec<u8>>| pieces(x@))
}

/// Cuts `s` into the pieces between occurrences of `sep`.
pub fn split_on(s: &[u8], sep: u8) -> (r: Vec<Vec<u8>>)
    ensures
        pieces(r@) == split_bytes(s@, sep),
{
    let mut done: Vec<Vec<u8>> = Vec::new();
    let mut cur: Vec<u8> = Vec::new();
    let mut i: usize = 0;
    assert(s@.take(0) =~= Seq::<u8>::empty());
    assert(pieces(done@).push(cur@) =~= split_bytes(s@.take(0), sep));
    while i < s.len()
        invariant
            i <= s@.len(),
            pieces(done@).push(cur@) == split_bytes(s@.take(i as int), sep),
        decreases s.len() - i,
    {
        proof {
            assert(s@.take(i + 1).drop_last() =~= s@.take(i as int));
            lemma_split_nonempty(s@.take(i as int), sep);
        }
        let ghost prev = split_bytes(s@.take(i as int), sep);
        let ghost done0 = done@;
        if s[i] == sep {
            let piece = cur;
            done.push(piece);
            cur = Vec::new();
            assert(pieces(done@) =~= pieces(done0).push(piece@));
            assert(pieces(done@).push(cur@) =~= prev.push(Seq::<u8>::empty()));
        } else {
            cur.push(s[i]);
            assert(pieces(done@).push(cur@) =~= prev.update(
                prev.len() - 1,
                prev.last().push(s@[i as int]),
            ));
        }
        i = i + 1;
    }
    assert(s@.take(s@.len() as int) =~= s@);
    let ghost done0 = done@;
    let last = cur;
    done.push(last);
    assert(pieces(done@) =~= pieces(done0).push(last@));
    done
}

/// The field lists of the quote lines of a CSV text, header excluded.
pub fn quote_fields(text: &[u8]) -> (r: Vec<Vec<Vec<u8>>>)
    ensures
        records(r@) == quote_records(text@),
{
    let lines = split_on(text, NEWLINE);
    let ghost all = pieces(lines@);
    proof {
        lemma_split_nonempty(text@, NEWLINE);
    }
    let ghost rest = all.drop_first();
    let ghost pred = |l: Seq<u8>| is_quote_line(l);
    let ghost fields_of = |l: Seq<u8>| split_bytes(l, COMMA);
    let mut out: Vec<Vec<Vec<u8>>> = Vec::new();
    let mut i: usize = 1;
    proof {
        reveal_with_fuel(Seq::<_>::filter, 1);
        assert(rest.take(0) =~= Seq::<Seq<u8>>::empty());
        assert(rest.take(0).filter(pred) =~= Seq::<Seq<u8>>::empty());
        assert(records(out@) =~= rest.take(0).filter(pred).map_values(fields_of));
    }
    while i < lines.len()
        invariant
            1 <= i <= lines@.len(),
            all == pieces(lines@),
            rest == all.drop_first(),
            all.len() == lines@.len(),
            pred == (|l: Seq<u8>| is_quote_line(l)),
            fields_of == (|l: Seq<u8>| split_bytes(l, COMMA)),
            records(out@) == rest.take(i - 1).filter(pred).map_values(fields_of),
        decreases lines.len() - i,
    {
        let fields = split_on(lines[i].as_slice(), COMMA);
        let ghost line = lines@[i as int]@;
        proof {
            reveal_with_fuel(Seq::<_>::filter, 1);
            assert(rest.take(i as int).drop_last() =~= rest.take(i - 1));
            assert(rest.take(i as int).last() == line);
            assert(pieces(fields@).len() == fields@.len());
        }
        let ghost out0 = out@;
        if fields.len() >= 3 {
            out.push(fields);
            assert(rest.take(i as int).filter(pred) == rest.take(i - 1).filter(pred).push(line));
            assert(records(out@) =~= records(out0).push(fields_of(line)));
            assert(records(out@) =~= rest.take(i as int).filter(pred).map_values(fields_of));
        } else {
            assert(rest.take(i as int).filter(pred) == rest.take(i - 1).filter(pred));
        }
        i = i + 1;
    }
    assert(rest.take(rest.len() as int) =~= rest);
    out
}

} // verus!
