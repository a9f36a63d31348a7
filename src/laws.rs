//! Laws of resolving and marking up.
use crate::lines::{breaks, file_lines, kept, lemma_kept_len, lemma_pieces_len, lemma_tail_empty, raw_lines, LF};
use crate::markup::{marked_up, NORMAL};
use crate::resource::{listed, parsed, resolved, ProbeView, ResourceView};
use vstd::prelude::*;
use vstd::utf8::valid_utf8;

verus! {

/// A readable directory resolves to its entries, one for each member that could
/// be enumerated.
pub proof fn law_directory_lists_members(es: Seq<Option<Seq<char>>>)
    ensures
        resolved(ProbeView::Directory(Some(es))) == ResourceView::Dir(listed(es)),
        listed(es).len() == es.filter(|e: Option<Seq<char>>| e is Some).len(),
    decreases es.len(),
{
    if es.len() > 0 {
        let init = es.drop_last();
        law_directory_lists_members(init);
        assert(init.push(es.last()) =~= es);
        init.lemma_filter_len_push(|e: Option<Seq<char>>| e is Some, es.last());
    }
}

/// A readable file resolves to its lines: one for each line feed, and one more
/// for a last line that no feed ends, less the lines that are not valid UTF-8.
pub proof fn law_file_lines_counted(b: Seq<u8>)
    ensures
        resolved(ProbeView::File(Some(b))) == ResourceView::File(file_lines(b)),
        raw_lines(b).len() == breaks(b) + if b.len() > 0 && b.last() != LF {
            1int
        } else {
            0int
        },
        file_lines(b).len() <= raw_lines(b).len(),
        (forall|k: int| 0 <= k < raw_lines(b).len() ==> valid_utf8(#[trigger] raw_lines(b)[k]))
            ==> file_lines(b).len() == raw_lines(b).len(),
{
    lemma_pieces_len(b);
    lemma_tail_empty(b);
    lemma_kept_len(raw_lines(b));
}

/// A path that does not exist is unprocessable, as is one that is neither a
/// regular file nor a directory, or whose content cannot be read.
pub proof fn law_unreadable_is_unprocessable()
    ensures
        resolved(ProbeView::Missing) == ResourceView::Unprocessable,
        resolved(ProbeView::Special) == ResourceView::Unprocessable,
        resolved(ProbeView::File(None)) == ResourceView::Unprocessable,
        resolved(ProbeView::Directory(None)) == ResourceView::Unprocessable,
{
}

/// The entries of a directory are shown as they are, at the normal level,
/// whatever the rules.
pub proof fn law_directory_entries_unmarked(
    es: Seq<Seq<char>>,
    line: Seq<char>,
    table: Map<Seq<char>, u16>,
)
    ensures
        parsed(ResourceView::Dir(es), line, table) == (line, NORMAL),
{
}

/// An empty line of a file stays empty, at the normal level, whatever the rules.
pub proof fn law_empty_line_unmarked(ls: Seq<Seq<char>>, table: Map<Seq<char>, u16>)
    ensures
        parsed(ResourceView::File(ls), Seq::empty(), table) == (Seq::<char>::empty(), NORMAL),
{
}

/// Resolving a path twice that the filesystem shows alike both times gives
/// equal results.
pub proof fn law_resolve_repeatable(first: ProbeView, second: ProbeView)
    requires
        first == second,
    ensures
        resolved(first) == resolved(second),
{
}

} // verus!
