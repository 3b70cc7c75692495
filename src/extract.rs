//! Extraction of the log statements of source files.
use vstd::prelude::*;
use crate::code_source::{matches_of, CodeSource, SourceQuery};
use crate::language::SourceLanguage;
use crate::matcher::{paths_agree, pattern_set, StatementsInFile};
use crate::language::denylisted;
use crate::source_ref::{
    build_refs, build_source_refs, lemma_denylist_sound, lemma_refs_path, matches_view, refs_view, rows_fit,
    MatchView, QueryMatch, SourceRefView,
};
use crate::text::lower_of;

verus! {

/// The statements of a file with the given path, id and language, built
/// from its query matches; none where it has no call site.
pub fn statements_in_file(lang: SourceLanguage, path: &str, id: u64, ms: &Vec<QueryMatch>) -> (r:
    Option<StatementsInFile>)
    requires
        rows_fit(matches_view(ms@)),
    ensures
        build_refs(lang, path@, matches_view(ms@)).len() == 0 ==> r is None,
        build_refs(lang, path@, matches_view(ms@)).len() > 0 ==> r is Some,
        r matches Some(s) ==> s.path@ == path@ && s.id == id && refs_view(s.log_statements@)
            == build_refs(lang, path@, matches_view(ms@)) && paths_agree(s),
{
    let refs = build_source_refs(lang, path, ms);
    if refs.len() == 0 {
        None
    } else {
        proof {
            lemma_refs_path(lang, path@, matches_view(ms@));
            assert forall|k: int| 0 <= k < refs@.len() implies (#[trigger] refs@[k]).source_path@
                == path@ by {
                assert(refs_view(refs@)[k] == refs@[k]@);
            }
        }
        let matcher = pattern_set(&refs);
        Some(StatementsInFile { path: path.to_owned(), id, log_statements: refs, matcher })
    }
}

/// The references of a code source: those that the builder makes of the
/// query matches over its text.
pub open spec fn file_refs(code: CodeSource) -> Seq<SourceRefView> {
    build_refs(code.language, code.path@, matches_of(code.language, code.buffer@))
}

/// `sif` holds the statements of `code`.
pub open spec fn extracted_from(sif: StatementsInFile, code: CodeSource) -> bool {
    &&& sif.id == code.id
    &&& sif.path@ == code.path@
    &&& refs_view(sif.log_statements@) == file_refs(code)
    &&& paths_agree(sif)
}

/// The sources among `sources` that hold a call site, in order.
pub open spec fn with_statements(sources: Seq<CodeSource>) -> Seq<CodeSource>
    decreases sources.len(),
{
    if sources.len() == 0 {
        seq![]
    } else {
        with_statements(sources.drop_last()) + if file_refs(sources.last()).len() > 0 {
            seq![sources.last()]
        } else {
            seq![]
        }
    }
}

/// No variable of an extracted statement is, in lower case, an identifier
/// that the file's language denylists.
pub proof fn lemma_extracted_denylist_sound(sif: StatementsInFile, code: CodeSource)
    requires
        extracted_from(sif, code),
    ensures
        forall|i: int, j: int|
            0 <= i < sif.log_statements@.len() && 0 <= j < sif.log_statements@[i].vars@.len()
                ==> !denylisted(code.language, lower_of(#[trigger] sif.log_statements@[i].vars@[j]@)),
{
    let ms = matches_of(code.language, code.buffer@);
    lemma_denylist_sound(code.language, code.path@, ms);
    assert forall|i: int, j: int|
        0 <= i < sif.log_statements@.len() && 0 <= j < sif.log_statements@[i].vars@.len()
            implies !denylisted(code.language, lower_of(#[trigger] sif.log_statements@[i].vars@[j]@)) by {
        let b = build_refs(code.language, code.path@, ms);
        assert(refs_view(sif.log_statements@)[i] == sif.log_statements@[i]@);
        assert(b[i].vars[j] == sif.log_statements@[i].vars@[j]@);
    }
}

/// The statements of each source that holds any call site, in the order of
/// the sources.
pub fn extract_logging(sources: &[CodeSource]) -> (r: Vec<StatementsInFile>)
    ensures
        r@.len() == with_statements(sources@).len(),
        forall|i: int|
            0 <= i < r@.len() ==> extracted_from(#[trigger] r@[i], with_statements(sources@)[i]),
{
    let mut out: Vec<StatementsInFile> = Vec::new();
    let mut i: usize = 0;
    while i < sources.len()
        invariant
            i <= sources@.len(),
            out@.len() == with_statements(sources@.subrange(0, i as int)).len(),
            forall|k: int|
                0 <= k < out@.len() ==> extracted_from(
                    #[trigger] out@[k],
                    with_statements(sources@.subrange(0, i as int))[k],
                ),
        decreases sources@.len() - i,
    {
        let code = &sources[i];
        let ghost sub = sources@.subrange(0, i + 1);
        let ghost prev_w = with_statements(sources@.subrange(0, i as int));
        assert(sub.drop_last() =~= sources@.subrange(0, i as int));
        assert(sub.last() == *code);
        let ms = SourceQuery::new(code).query();
        match statements_in_file(code.language, code.path.as_str(), code.id, &ms) {
            Some(s) => {
                let ghost prev = out@;
                out.push(s);
                assert(with_statements(sub) == prev_w + seq![*code]);
                assert forall|k: int| 0 <= k < out@.len() implies extracted_from(
                    #[trigger] out@[k],
                    with_statements(sub)[k],
                ) by {
                    if k < prev.len() {
                        assert(out@[k] == prev[k]);
                        assert(with_statements(sub)[k] == prev_w[k]);
                    } else {
                        assert(out@[k] == s);
                    }
                }
            },
            None => {
                assert(with_statements(sub) =~= prev_w);
            },
        }
        i = i + 1;
    }
    assert(sources@.subrange(0, i as int) =~= sources@);
    out
}

} // verus!
