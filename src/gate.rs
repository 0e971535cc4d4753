//! The whole run: documents of every readable file, their suites, the
//! totals, and the verdict.

use crate::report::{junit_suite_counts, parse_document, suite_counts, Suite};
use crate::splitter::{documents_of, split_xml_documents};
use crate::tally::{fits_u64, fold_suites, tally_of};
use crate::verdict::{
    evaluate, exit_status, outcome_status, verdict_of, GateError, Thresholds, Verdict,
};
use vstd::prelude::*;

verus! {

/// The counters of every suite in `docs`, in order, or the index of the
/// first document that the decoder rejects.
pub open spec fn parse_documents(docs: Seq<Seq<char>>) -> Result<Seq<(u64, u64, u64, u64)>, int>
    decreases docs.len(),
{
    if docs.len() == 0 {
        Ok(Seq::empty())
    } else {
        match parse_documents(docs.drop_last()) {
            Err(j) => Err(j),
            Ok(cs) => match junit_suite_counts(docs.last()) {
                Some(more) => Ok(cs + more),
                None => Err(docs.len() - 1),
            },
        }
    }
}

/// The counters of every suite in the readable files (`None` stands for a
/// file that could not be read), in order, or the indices of the first
/// rejected document: of its file, and within the file.
pub open spec fn parse_files(files: Seq<Option<String>>) -> Result<Seq<(u64, u64, u64, u64)>, (int, int)>
    decreases files.len(),
{
    if files.len() == 0 {
        Ok(Seq::empty())
    } else {
        match parse_files(files.drop_last()) {
            Err(e) => Err(e),
            Ok(cs) => match files.last() {
                None => Ok(cs),
                Some(text) => match parse_documents(documents_of(text@)) {
                    Ok(more) => Ok(cs + more),
                    Err(j) => Err((files.len() - 1, j)),
                },
            },
        }
    }
}

/// Some file could be read.
pub open spec fn any_read(files: Seq<Option<String>>) -> bool {
    exists|i: int| 0 <= i < files.len() && files[i] is Some
}

/// The outcome of a run over `files`.
pub open spec fn gate_outcome(files: Seq<Option<String>>, th: Thresholds) -> Result<Verdict, GateError> {
    match parse_files(files) {
        Err((f, d)) => Err(GateError::MalformedDocument { file: f as usize, document: d as usize }),
        Ok(cs) => if !any_read(files) {
            Err(GateError::NoFilesRead)
        } else if !fits_u64(tally_of(cs)) {
            Err(GateError::CountOverflow)
        } else if tally_of(cs).tests == 0 {
            Err(GateError::NoTestsFound)
        } else {
            Ok(verdict_of(tally_of(cs), th))
        },
    }
}

/// The suites of the documents of one file, appended to `suites`; or the
/// index of the first document that the decoder rejects.
fn parse_file(text: &String, suites: &mut Vec<Suite>) -> (r: Result<(), usize>)
    ensures
        match parse_documents(documents_of(text@)) {
            Ok(more) => r is Ok && suite_counts(final(suites)@) == suite_counts(old(suites)@) + more,
            Err(j) => r == Err::<(), usize>(j as usize),
        },
{
    let ghost docs_spec = documents_of(text@);
    let mut docs: Vec<String> = Vec::new();
    split_xml_documents(text.clone(), &mut docs);
    assert(docs@.len() == docs_spec.len());
    assert forall|k: int| 0 <= k < docs@.len() implies #[trigger] docs@[k]@ == docs_spec[k] by {
        assert(docs@[0 + k] == docs@[k]);
    }
    let ghost start = suite_counts(suites@);
    let mut d: usize = 0;
    while d < docs.len()
        invariant
            d <= docs@.len(),
            docs_spec == documents_of(text@),
            docs@.len() == docs_spec.len(),
            forall|k: int| 0 <= k < docs@.len() ==> #[trigger] docs@[k]@ == docs_spec[k],
            parse_documents(docs_spec.take(d as int)) matches Ok(more) && suite_counts(suites@)
                == start + more,
        decreases docs@.len() - d,
    {
        proof {
            assert(docs_spec.take(d + 1).drop_last() =~= docs_spec.take(d as int));
            assert(docs_spec.take(d + 1).last() == docs_spec[d as int]);
            assert(docs@[d as int]@ == docs_spec[d as int]);
        }
        match parse_document(docs[d].as_str()) {
            Ok(report) => {
                let mut found = report.suites;
                let ghost before = suites@;
                let ghost added = found@;
                suites.append(&mut found);
                proof {
                    assert(suite_counts(before + added) =~= suite_counts(before) + suite_counts(
                        added,
                    ));
                    let prev = parse_documents(docs_spec.take(d as int))->Ok_0;
                    assert(start + prev + suite_counts(added) =~= start + (prev + suite_counts(
                        added,
                    )));
                }
            },
            Err(_) => {
                proof {
                    assert(junit_suite_counts(docs_spec[d as int]) is None);
                    assert(parse_documents(docs_spec.take(d + 1)) == Err::<Seq<(u64, u64, u64, u64)>, int>(d as int));
                    lemma_parse_documents_prefix(docs_spec, d as int + 1);
                }
                return Err(d);
            },
        }
        d = d + 1;
    }
    proof {
        assert(docs_spec.take(d as int) =~= docs_spec);
    }
    Ok(())
}

/// A rejected document in a prefix is the first rejected document of the
/// whole sequence.
proof fn lemma_parse_documents_prefix(docs: Seq<Seq<char>>, n: int)
    requires
        0 <= n <= docs.len(),
        parse_documents(docs.take(n)) is Err,
    ensures
        parse_documents(docs) == parse_documents(docs.take(n)),
    decreases docs.len() - n,
{
    if n < docs.len() {
        assert(docs.take(n + 1).drop_last() =~= docs.take(n));
        lemma_parse_documents_prefix(docs, n + 1);
    } else {
        assert(docs.take(n) =~= docs);
    }
}

/// A rejected document in a prefix of the files is the first rejected
/// document of all of them.
proof fn lemma_parse_files_prefix(files: Seq<Option<String>>, n: int)
    requires
        0 <= n <= files.len(),
        parse_files(files.take(n)) is Err,
    ensures
        parse_files(files) == parse_files(files.take(n)),
    decreases files.len() - n,
{
    if n < files.len() {
        assert(files.take(n + 1).drop_last() =~= files.take(n));
        lemma_parse_files_prefix(files, n + 1);
    } else {
        assert(files.take(n) =~= files);
    }
}

/// Runs the whole check over the contents of the input files, `None` standing for
/// a file that could not be read.
///
/// Every readable file is split into its documents and each document is
/// decoded; the first document that the decoder rejects ends the run. With
/// no readable file the run fails with `NoFilesRead`. Otherwise the suites
/// are totalled, suites without tests left out, and the totals are compared
/// against `thresholds`; totals without a single test fail with
/// `NoTestsFound`.
pub fn run_gate(files: &Vec<Option<String>>, thresholds: &Thresholds) -> (r: Result<Verdict, GateError>)
    ensures
        r == gate_outcome(files@, *thresholds),
{
    let mut suites: Vec<Suite> = Vec::new();
    let mut any_file_read: bool = false;
    assert(suite_counts(suites@) =~= Seq::empty());
    assert(files@.take(0) =~= Seq::empty());
    let mut f: usize = 0;
    while f < files.len()
        invariant
            f <= files@.len(),
            parse_files(files@.take(f as int)) == Ok::<Seq<(u64, u64, u64, u64)>, (int, int)>(
                suite_counts(suites@),
            ),
            any_file_read == any_read(files@.take(f as int)),
        decreases files@.len() - f,
    {
        proof {
            assert(files@.take(f + 1).drop_last() =~= files@.take(f as int));
            assert(files@.take(f + 1).last() == files@[f as int]);
        }
        match &files[f] {
            None => {
                proof {
                    if any_read(files@.take(f + 1)) {
                        let i = choose|i: int| 0 <= i < f + 1 && (#[trigger] files@.take(f + 1)[i]) is Some;
                        assert(files@.take(f as int)[i] is Some);
                    }
                }
            },
            Some(text) => {
                match parse_file(text, &mut suites) {
                    Ok(()) => {},
                    Err(d) => {
                        proof {
                            lemma_parse_files_prefix(files@, f + 1);
                        }
                        return Err(GateError::MalformedDocument { file: f, document: d });
                    },
                }
                proof {
                    assert(files@.take(f + 1)[f as int] is Some);
                }
                any_file_read = true;
            },
        }
        f = f + 1;
    }
    proof {
        assert(files@.take(f as int) =~= files@);
    }
    if !any_file_read {
        return Err(GateError::NoFilesRead);
    }
    match fold_suites(&suites) {
        None => Err(GateError::CountOverflow),
        Some(totals) => evaluate(&totals, thresholds),
    }
}

/// The outcome of a run as a result: `Ok` where nothing is breached, else the
/// exit status.
pub fn gate_result(outcome: &Result<Verdict, GateError>) -> (r: Result<(), i32>)
    ensures
        r is Ok <==> outcome_status(*outcome) == 0,
        r matches Err(c) ==> c as int == outcome_status(*outcome),
{
    let status = exit_status(outcome);
    if status == 0 {
        Ok(())
    } else {
        Err(status)
    }
}

} // verus!
