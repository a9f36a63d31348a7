//! Resolving a path to its content: the lines of a file, the entries of a
//! directory, or nothing that can be shown.
//!
//! Reading the filesystem is left to the caller, which describes what it found
//! as a [`Probe`]; everything decided from there on is done here.
use crate::lines::{file_lines, split_lines, texts};
use crate::markup::{mark_up, marked_up, Parsed, RuleTable, NORMAL};
use vstd::prelude::*;

verus! {

/// What the filesystem showed of a path.
pub enum Probe {
    /// The path's metadata could not be read (it does not exist, say).
    Missing,
    /// The path is neither a regular file nor a directory.
    Special,
    /// A regular file: its content, or `None` where it could not be opened or read.
    File(Option<Vec<u8>>),
    /// A directory: the path of each member as its enumeration yielded it (`None`
    /// for a member that failed), or `None` where the enumeration could not start.
    Directory(Option<Vec<Option<String>>>),
}

/// A [`Probe`] as plain values.
pub enum ProbeView {
    Missing,
    Special,
    File(Option<Seq<u8>>),
    Directory(Option<Seq<Option<Seq<char>>>>),
}

/// The text of a directory member, if it could be enumerated.
pub open spec fn entry_view(e: Option<String>) -> Option<Seq<char>> {
    match e {
        Some(s) => Some(s@),
        None => None,
    }
}

impl View for Probe {
    type V = ProbeView;

    open spec fn view(&self) -> ProbeView {
        match self {
            Probe::Missing => ProbeView::Missing,
            Probe::Special => ProbeView::Special,
            Probe::File(None) => ProbeView::File(None),
            Probe::File(Some(b)) => ProbeView::File(Some(b@)),
            Probe::Directory(None) => ProbeView::Directory(None),
            Probe::Directory(Some(es)) => ProbeView::Directory(
                Some(es@.map_values(|e: Option<String>| entry_view(e))),
            ),
        }
    }
}

/// The content of a resolved path.
#[derive(Debug, PartialEq, Eq)]
pub enum MarxtResource {
    /// The entries of a directory.
    Dir(Vec<String>),
    /// The lines of a regular file.
    File(Vec<String>),
    /// A path with no readable file or directory content.
    Unprocessable,
}

/// A [`MarxtResource`] as plain values.
pub enum ResourceView {
    Dir(Seq<Seq<char>>),
    File(Seq<Seq<char>>),
    Unprocessable,
}

impl View for MarxtResource {
    type V = ResourceView;

    open spec fn view(&self) -> ResourceView {
        match self {
            MarxtResource::Dir(es) => ResourceView::Dir(texts(es@)),
            MarxtResource::File(ls) => ResourceView::File(texts(ls@)),
            MarxtResource::Unprocessable => ResourceView::Unprocessable,
        }
    }
}

/// The members of a directory that could be enumerated, in the order given.
pub open spec fn listed(es: Seq<Option<Seq<char>>>) -> Seq<Seq<char>> {
    es.filter_map(|e: Option<Seq<char>>| e)
}

/// What a path resolves to, given what the filesystem showed of it.
pub open spec fn resolved(p: ProbeView) -> ResourceView {
    match p {
        ProbeView::File(Some(b)) => ResourceView::File(file_lines(b)),
        ProbeView::Directory(Some(es)) => ResourceView::Dir(listed(es)),
        _ => ResourceView::Unprocessable,
    }
}

/// The lines or entries that a resource shows, in order; none for an
/// unprocessable path.
pub open spec fn items(r: ResourceView) -> Seq<Seq<char>> {
    match r {
        ResourceView::Dir(es) => es,
        ResourceView::File(ls) => ls,
        ResourceView::Unprocessable => Seq::empty(),
    }
}

/// The text and level of a line of `r` under the rules `table`: markers count
/// in the lines of a file only.
pub open spec fn parsed(r: ResourceView, line: Seq<char>, table: Map<Seq<char>, u16>) -> (
    Seq<char>,
    u16,
) {
    match r {
        ResourceView::File(_) => marked_up(line, table),
        _ => (line, NORMAL),
    }
}

/// The members of a directory that could be enumerated.
fn list_entries(es: &Vec<Option<String>>) -> (r: Vec<String>)
    ensures
        texts(r@) == listed(es@.map_values(|e: Option<String>| entry_view(e))),
{
    let ghost ev = es@.map_values(|e: Option<String>| entry_view(e));
    let mut out: Vec<String> = Vec::new();
    for i in 0..es.len()
        invariant
            ev == es@.map_values(|e: Option<String>| entry_view(e)),
            texts(out@) == listed(ev.take(i as int)),
    {
        proof {
            ev.lemma_filter_map_take_succ(|e: Option<Seq<char>>| e, i as int);
        }
        match &es[i] {
            Some(s) => {
                out.push(s.clone());
                assert(texts(out@) =~= listed(ev.take(i + 1)));
            },
            None => {
                assert(listed(ev.take(i + 1)) =~= listed(ev.take(i as int)));
            },
        }
    }
    assert(ev.take(es.len() as int) =~= ev);
    out
}

impl MarxtResource {
    /// Resolves a path from what the filesystem showed of it.
    pub fn from(probe: Probe) -> (r: MarxtResource)
        ensures
            r@ == resolved(probe@),
    {
        match probe {
            Probe::File(Some(b)) => MarxtResource::File(split_lines(&b)),
            Probe::Directory(Some(es)) => MarxtResource::Dir(list_entries(&es)),
            _ => MarxtResource::Unprocessable,
        }
    }

    /// The lines or entries to show, in order.
    pub fn list_text(&self) -> (r: Vec<String>)
        ensures
            texts(r@) == items(self@),
    {
        let mut vec: Vec<String> = Vec::new();
        match self {
            MarxtResource::Dir(v) | MarxtResource::File(v) => {
                for i in 0..v.len()
                    invariant
                        texts(vec@) == texts(v@).take(i as int),
                {
                    let ghost before = vec@;
                    vec.push(v[i].clone());
                    assert(vec@ == before.push(v@[i as int]));
                    assert(texts(before) =~= texts(v@).take(i as int));
                    assert(texts(vec@) =~= texts(before).push(v@[i as int]@));
                    assert(texts(vec@) =~= texts(v@).take(i + 1));
                }
                assert(texts(v@).take(v.len() as int) =~= texts(v@));
            },
            MarxtResource::Unprocessable => {
                assert(texts(vec@) =~= Seq::<Seq<char>>::empty());
            },
        }
        vec
    }

    /// Shows `line`, one of this resource's lines or entries, under the rules
    /// of `table`.
    pub fn parse(&self, line: String, table: &RuleTable) -> (r: Parsed)
        ensures
            (r.line@, r.level) == parsed(self@, line@, table@),
    {
        match self {
            MarxtResource::File(_) => mark_up(line, table),
            _ => Parsed::new(line, NORMAL),
        }
    }
}

} // verus!
