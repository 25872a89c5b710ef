//! The replies of the constraint programs, taken apart into the parts that
//! the next step needs.

use crate::error::ProtocolError;
use crate::output::arity_at;
use crate::output::byte_views;
use crate::output::holds_no_newline;
use crate::output::joined;
use crate::output::lemma_line_scan_rejoins;
use crate::output::line_scan;
use crate::output::lines_of;
use crate::output::split_lines;
use crate::output::NEWLINE;
use crate::output::read_records;
use crate::output::record_of;
use crate::output::reply_failure;
use crate::output::reply_well_formed;
use crate::output::values_of;
use crate::request::Pair;
use crate::request::Triple;
use crate::scalar::decimal_value;
use crate::scalar::is_decimal;
use crate::scalar::Scalar;
use vstd::prelude::*;

verus! {

/// The shape of the first program's reply: the hashed identifiers, then
/// the blinded points, each a pair.
pub open spec fn phase1_shape() -> Seq<usize> {
    seq![2usize, 2usize]
}

/// The shape of the second program's reply: the combined points and the
/// hidden tags, each a pair, then the hidden data, each a triple.
pub open spec fn phase2_shape() -> Seq<usize> {
    seq![2usize, 2usize, 3usize]
}

/// Whether `pairs` holds the records of the `pairs.len()` lines that start
/// at line `first`.
pub open spec fn pairs_match(pairs: Seq<Pair>, lines: Seq<Seq<u8>>, first: int) -> bool {
    forall|i: int|
        0 <= i < pairs.len() ==> record_of(lines[first + i], 2) == Some(
            seq![(#[trigger] pairs[i]).0@, pairs[i].1@],
        )
}

/// Whether `triples` holds the records of the `triples.len()` lines that
/// start at line `first`.
pub open spec fn triples_match(triples: Seq<Triple>, lines: Seq<Seq<u8>>, first: int) -> bool {
    forall|i: int|
        0 <= i < triples.len() ==> record_of(lines[first + i], 3) == Some(
            seq![(#[trigger] triples[i]).0@, triples[i].1@, triples[i].2@],
        )
}

/// A well-formed reply of the first program holds exactly two records for
/// each cell, and one of the second program exactly three: one in each of
/// its three sections.
pub proof fn lemma_reply_counts(text: Seq<u8>, cells: nat)
    ensures
        reply_well_formed(text, cells, phase1_shape()) ==> lines_of(text).len() == 2 * cells,
        reply_well_formed(text, cells, phase2_shape()) ==> lines_of(text).len() == cells + cells
            + cells,
{
    assert(cells * 2 == 2 * cells) by (nonlinear_arith);
    assert(cells * 3 == cells + cells + cells) by (nonlinear_arith);
}

/// Line `i` of a reply lies in section `section` when it is one of the
/// `cells` lines that begin at `section * cells`.
pub proof fn lemma_section_of_line(i: int, cells: int, section: int)
    requires
        cells > 0,
        section * cells <= i < section * cells + cells,
    ensures
        i / cells == section,
{
    vstd::arithmetic::div_mod::lemma_fundamental_div_mod_converse(
        i,
        cells,
        section,
        i - section * cells,
    );
}

/// The pairs on the `count` lines of `records` that start at `first`.
fn take_pairs(records: &Vec<Vec<Scalar>>, first: usize, count: usize) -> (r: Vec<Pair>)
    requires
        first + count <= records.len(),
        forall|i: int| first <= i < first + count ==> (#[trigger] records[i]).len() == 2,
    ensures
        r.len() == count,
        forall|i: int|
            0 <= i < count ==> seq![(#[trigger] r[i]).0@, r[i].1@] == values_of(
                records[first + i]@,
            ),
{
    let mut out: Vec<Pair> = Vec::new();
    let mut k: usize = 0;
    while k < count
        invariant
            k <= count,
            first + count <= records.len(),
            forall|i: int| first <= i < first + count ==> (#[trigger] records[i]).len() == 2,
            out.len() == k,
            forall|i: int|
                0 <= i < k ==> seq![(#[trigger] out[i]).0@, out[i].1@] == values_of(
                    records[first + i]@,
                ),
        decreases count - k,
    {
        let record = &records[first + k];
        let pair = (record[0].duplicate(), record[1].duplicate());
        proof {
            assert(seq![pair.0@, pair.1@] =~= values_of(record@));
        }
        out.push(pair);
        k += 1;
    }
    out
}

/// The triples on the `count` lines of `records` that start at `first`.
fn take_triples(records: &Vec<Vec<Scalar>>, first: usize, count: usize) -> (r: Vec<Triple>)
    requires
        first + count <= records.len(),
        forall|i: int| first <= i < first + count ==> (#[trigger] records[i]).len() == 3,
    ensures
        r.len() == count,
        forall|i: int|
            0 <= i < count ==> seq![(#[trigger] r[i]).0@, r[i].1@, r[i].2@] == values_of(
                records[first + i]@,
            ),
{
    let mut out: Vec<Triple> = Vec::new();
    let mut k: usize = 0;
    while k < count
        invariant
            k <= count,
            first + count <= records.len(),
            forall|i: int| first <= i < first + count ==> (#[trigger] records[i]).len() == 3,
            out.len() == k,
            forall|i: int|
                0 <= i < k ==> seq![(#[trigger] out[i]).0@, out[i].1@, out[i].2@] == values_of(
                    records[first + i]@,
                ),
        decreases count - k,
    {
        let record = &records[first + k];
        let triple = (record[0].duplicate(), record[1].duplicate(), record[2].duplicate());
        proof {
            assert(seq![triple.0@, triple.1@, triple.2@] =~= values_of(record@));
        }
        out.push(triple);
        k += 1;
    }
    out
}

/// The digest that the output of the commitment program holds: the output
/// is one line, and that line is a decimal numeral and nothing else. A
/// blank, a carriage return, a sign or a second field on the line leaves
/// no digest, and so does any other number of lines. The newline at the
/// end of the line may be missing.
pub open spec fn digest_of(text: Seq<u8>) -> Option<nat> {
    let lines = lines_of(text);
    if lines.len() == 1 && is_decimal(lines[0]) {
        Some(decimal_value(lines[0]))
    } else {
        None
    }
}

/// The failure that an output without a digest gives: another number of
/// lines than one comes first, with the number found; else the line is
/// malformed.
pub open spec fn digest_failure(text: Seq<u8>, e: ProtocolError) -> bool {
    let lines = lines_of(text);
    if lines.len() != 1 {
        e == (ProtocolError::WrongRecordCount {
            sections: 1,
            cells: 1,
            found: lines.len() as usize,
        })
    } else {
        e == (ProtocolError::MalformedRecord { line: 0 })
    }
}

/// A text without a newline is read as one open line and no ended one.
pub proof fn lemma_line_scan_of_one_line(text: Seq<u8>)
    requires
        holds_no_newline(text),
    ensures
        line_scan(text) == (Seq::<Seq<u8>>::empty(), text),
    decreases text.len(),
{
    if text.len() == 0 {
        assert(text =~= Seq::<u8>::empty());
    } else {
        let earlier = text.drop_last();
        assert forall|j: int| 0 <= j < earlier.len() implies #[trigger] earlier[j] != NEWLINE by {
            assert(earlier[j] == text[j]);
        }
        lemma_line_scan_of_one_line(earlier);
        assert(text.last() != NEWLINE);
        assert(earlier.push(text.last()) =~= text);
    }
}

/// The outputs that hold a digest are the decimal numerals, each with or
/// without one newline at its end, and the digest is the number that the
/// numeral spells.
pub proof fn lemma_digest_texts(text: Seq<u8>)
    ensures
        is_decimal(text) ==> digest_of(text) == Some(decimal_value(text)),
        text.len() > 0 && text.last() == NEWLINE && is_decimal(text.drop_last()) ==> digest_of(text)
            == Some(decimal_value(text.drop_last())),
        digest_of(text) is Some ==> is_decimal(text) || (text.len() > 0 && text.last() == NEWLINE
            && is_decimal(text.drop_last())),
{
    if is_decimal(text) {
        lemma_line_scan_of_one_line(text);
        assert(lines_of(text) =~= seq![text]);
    }
    if text.len() > 0 && text.last() == NEWLINE && is_decimal(text.drop_last()) {
        let numeral = text.drop_last();
        lemma_line_scan_of_one_line(numeral);
        assert(line_scan(text) == (Seq::<Seq<u8>>::empty().push(numeral), Seq::<u8>::empty()));
        assert(lines_of(text) =~= seq![numeral]);
    }
    if digest_of(text) is Some {
        let (done, current) = line_scan(text);
        let line = lines_of(text)[0];
        lemma_line_scan_rejoins(text);
        if current.len() > 0 {
            assert(done.len() == 0);
            assert(joined(done) =~= Seq::<u8>::empty());
            assert(text =~= line);
        } else {
            assert(done.len() == 1);
            assert(done[0] == line);
            assert(done.drop_last() =~= Seq::<Seq<u8>>::empty());
            assert(joined(done.drop_last()) =~= Seq::<u8>::empty());
            assert(joined(done) =~= line.push(NEWLINE));
            assert(text =~= line.push(NEWLINE));
            assert(text.drop_last() =~= line);
        }
    }
}

/// Reads the digest that the commitment program printed. The output must
/// be exactly one line, and the line must be a decimal numeral from its
/// first byte to its last: anything else is a failure, and no digest is
/// returned.
pub fn digest_output(text: &[u8]) -> (r: Result<Scalar, ProtocolError>)
    ensures
        r is Ok <==> digest_of(text@) is Some,
        r matches Ok(digest) ==> Some(digest@) == digest_of(text@),
        r matches Err(e) ==> digest_failure(text@, e),
{
    let lines = split_lines(text);
    proof {
        assert(byte_views(lines@).len() == lines.len());
    }
    if lines.len() != 1 {
        return Err(
            ProtocolError::WrongRecordCount { sections: 1, cells: 1, found: lines.len() },
        );
    }
    proof {
        assert(byte_views(lines@)[0] == lines@[0]@);
    }
    match Scalar::parse_decimal(lines[0].as_slice()) {
        Some(digest) => Ok(digest),
        None => Err(ProtocolError::MalformedRecord { line: 0 }),
    }
}

/// Takes the reply of the first program apart. For a board of `cells`
/// cells it must hold exactly `2 * cells` records, each a pair: first the
/// hashed identifiers, then the blinded points.
pub fn phase1_outputs(text: &[u8], cells: usize) -> (r: Result<(Vec<Pair>, Vec<Pair>), ProtocolError>)
    ensures
        r is Ok <==> reply_well_formed(text@, cells as nat, phase1_shape()),
        r matches Ok((idents, blinded)) ==> {
            &&& idents.len() == cells
            &&& blinded.len() == cells
            &&& pairs_match(idents@, lines_of(text@), 0)
            &&& pairs_match(blinded@, lines_of(text@), cells as int)
        },
        r matches Err(e) ==> reply_failure(text@, cells, phase1_shape(), e),
{
    let shape = [2usize, 2usize];
    proof {
        assert(shape@ =~= phase1_shape());
    }
    match read_records(text, cells, shape.as_slice()) {
        Ok(records) => {
            let ghost lines = lines_of(text@);
            proof {
                assert(records.len() == 2 * cells) by (nonlinear_arith)
                    requires
                        records.len() == cells * 2,
                ;
                assert forall|i: int| 0 <= i < 2 * cells implies arity_at(
                    i,
                    cells as nat,
                    phase1_shape(),
                ) == 2 && (#[trigger] records[i]).len() == 2 by {
                    if i < cells {
                        lemma_section_of_line(i, cells as int, 0);
                    } else {
                        lemma_section_of_line(i, cells as int, 1);
                    }
                    assert(Some(values_of(records[i]@)) == record_of(lines[i], 2));
                    assert(values_of(records[i]@).len() == 2);
                }
            }
            let idents = take_pairs(&records, 0, cells);
            let blinded = take_pairs(&records, cells, cells);
            proof {
                assert forall|i: int| 0 <= i < cells implies record_of(lines[0 + i], 2) == Some(
                    seq![(#[trigger] idents[i]).0@, idents[i].1@],
                ) by {
                    assert(records[i].len() == 2);
                    assert(Some(values_of(records[0 + i]@)) == record_of(lines[i], 2));
                }
                assert forall|i: int| 0 <= i < cells implies record_of(lines[cells + i], 2)
                    == Some(seq![(#[trigger] blinded[i]).0@, blinded[i].1@]) by {
                    assert(records[cells + i].len() == 2);
                    assert(Some(values_of(records[cells + i]@)) == record_of(
                        lines[cells + i],
                        2,
                    ));
                }
            }
            Ok((idents, blinded))
        },
        Err(e) => Err(e),
    }
}

/// Takes the reply of the second program apart. For a board of `cells`
/// cells it must hold exactly `3 * cells` records: `cells` combined
/// points, `cells` hidden tags and `cells` hidden data, in that order.
pub fn phase2_outputs(text: &[u8], cells: usize) -> (r: Result<
    (Vec<Pair>, Vec<Pair>, Vec<Triple>),
    ProtocolError,
>)
    ensures
        r is Ok <==> reply_well_formed(text@, cells as nat, phase2_shape()),
        r matches Ok((dh, tags, data)) ==> {
            &&& dh.len() == cells
            &&& tags.len() == cells
            &&& data.len() == cells
            &&& pairs_match(dh@, lines_of(text@), 0)
            &&& pairs_match(tags@, lines_of(text@), cells as int)
            &&& triples_match(data@, lines_of(text@), 2 * cells)
        },
        r matches Err(e) ==> reply_failure(text@, cells, phase2_shape(), e),
{
    let shape = [2usize, 2usize, 3usize];
    proof {
        assert(shape@ =~= phase2_shape());
    }
    match read_records(text, cells, shape.as_slice()) {
        Ok(records) => {
            let ghost lines = lines_of(text@);
            proof {
                assert(records.len() == 3 * cells) by (nonlinear_arith)
                    requires
                        records.len() == cells * 3,
                ;
                assert forall|i: int| 0 <= i < 3 * cells implies (#[trigger] records[i]).len()
                    == arity_at(i, cells as nat, phase2_shape()) && arity_at(
                    i,
                    cells as nat,
                    phase2_shape(),
                ) == (if i < 2 * cells {
                    2nat
                } else {
                    3nat
                }) by {
                    if i < cells {
                        lemma_section_of_line(i, cells as int, 0);
                    } else if i < 2 * cells {
                        lemma_section_of_line(i, cells as int, 1);
                    } else {
                        lemma_section_of_line(i, cells as int, 2);
                    }
                    assert(Some(values_of(records[i]@)) == record_of(
                        lines[i],
                        arity_at(i, cells as nat, phase2_shape()),
                    ));
                    assert(values_of(records[i]@).len() == arity_at(
                        i,
                        cells as nat,
                        phase2_shape(),
                    ));
                }
            }
            let dh = take_pairs(&records, 0, cells);
            let tags = take_pairs(&records, cells, cells);
            let data = take_triples(&records, 2 * cells, cells);
            proof {
                assert forall|i: int| 0 <= i < cells implies record_of(lines[0 + i], 2) == Some(
                    seq![(#[trigger] dh[i]).0@, dh[i].1@],
                ) by {
                    assert(records[i].len() == 2);
                    assert(Some(values_of(records[0 + i]@)) == record_of(lines[i], 2));
                }
                assert forall|i: int| 0 <= i < cells implies record_of(lines[cells + i], 2)
                    == Some(seq![(#[trigger] tags[i]).0@, tags[i].1@]) by {
                    assert(records[cells + i].len() == 2);
                    assert(Some(values_of(records[cells + i]@)) == record_of(
                        lines[cells + i],
                        2,
                    ));
                }
                assert forall|i: int| 0 <= i < cells implies record_of(lines[2 * cells + i], 3)
                    == Some(seq![(#[trigger] data[i]).0@, data[i].1@, data[i].2@]) by {
                    assert(records[2 * cells + i].len() == 3);
                    assert(Some(values_of(records[2 * cells + i]@)) == record_of(
                        lines[2 * cells + i],
                        3,
                    ));
                }
            }
            Ok((dh, tags, data))
        },
        Err(e) => Err(e),
    }
}

} // verus!
