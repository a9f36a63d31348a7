//! Marking up a line by the marker token that starts it.
//!
//! A [`RuleTable`] maps marker tokens to emphasis levels. A line whose first
//! whitespace-delimited token is a marker of the table gets that marker's level,
//! and every occurrence of the marker is removed from its text; any other line is
//! shown as it is, at the normal level.
use crate::text::{blank, chars_of, is_blank};
use vstd::prelude::*;
use vstd::string::*;

verus! {

/// The level of a line that no rule matched.
pub const NORMAL: u16 = 0;

/// One rule: a marker token and the level it gives.
struct Rule {
    marker: Vec<char>,
    level: u16,
}

/// A mapping from marker tokens to emphasis levels.
pub struct RuleTable {
    rules: Vec<Rule>,
}

/// The mapping that a list of rules gives, a later rule overriding an earlier
/// one for the same marker.
pub open spec fn rules_map(rs: Seq<(Seq<char>, u16)>) -> Map<Seq<char>, u16>
    decreases rs.len(),
{
    if rs.len() == 0 {
        Map::empty()
    } else {
        rules_map(rs.drop_last()).insert(rs.last().0, rs.last().1)
    }
}

/// `n` marker characters `#`.
pub open spec fn hashes(n: nat) -> Seq<char> {
    Seq::new(n, |i: int| '#')
}

/// The rules of Markdown headings: one `#` is the most prominent.
pub open spec fn markdown_rules() -> Map<Seq<char>, u16> {
    map![
        hashes(1) => 5u16,
        hashes(2) => 4u16,
        hashes(3) => 3u16,
        hashes(4) => 2u16,
        hashes(5) => 1u16,
    ]
}

impl RuleTable {
    /// The rules as pairs of marker and level, in the order they were added.
    pub closed spec fn entries(&self) -> Seq<(Seq<char>, u16)> {
        self.rules@.map_values(|r: Rule| (r.marker@, r.level))
    }
}

impl View for RuleTable {
    type V = Map<Seq<char>, u16>;

    open spec fn view(&self) -> Map<Seq<char>, u16> {
        rules_map(self.entries())
    }
}

/// Whether no rule from `i` on has the marker `t`.
spec fn absent_from(rs: Seq<(Seq<char>, u16)>, t: Seq<char>, i: int) -> bool {
    forall|j: int| i <= j < rs.len() ==> (#[trigger] rs[j]).0 != t
}

/// The last rule for a marker decides its level.
proof fn lemma_rules_map_last(rs: Seq<(Seq<char>, u16)>, t: Seq<char>, i: int)
    requires
        0 <= i < rs.len(),
        rs[i].0 == t,
        absent_from(rs, t, i + 1),
    ensures
        rules_map(rs).contains_key(t),
        rules_map(rs)[t] == rs[i].1,
    decreases rs.len(),
{
    if i < rs.len() - 1 {
        let init = rs.drop_last();
        assert(init[i] == rs[i]);
        assert forall|j: int| i + 1 <= j < init.len() implies (#[trigger] init[j]).0 != t by {
            assert(init[j] == rs[j]);
        }
        lemma_rules_map_last(init, t, i);
    }
}

/// A marker that no rule has is not in the mapping.
proof fn lemma_rules_map_absent(rs: Seq<(Seq<char>, u16)>, t: Seq<char>)
    requires
        absent_from(rs, t, 0),
    ensures
        !rules_map(rs).contains_key(t),
    decreases rs.len(),
{
    if rs.len() > 0 {
        let init = rs.drop_last();
        assert forall|j: int| 0 <= j < init.len() implies (#[trigger] init[j]).0 != t by {
            assert(init[j] == rs[j]);
        }
        lemma_rules_map_absent(init, t);
        assert(rs[rs.len() - 1].0 != t);
    }
}

/// Whether `a` and `b` hold the same characters.
fn same_chars(a: &Vec<char>, b: &Vec<char>) -> (r: bool)
    ensures
        r == (a@ == b@),
{
    if a.len() != b.len() {
        return false;
    }
    for i in 0..a.len()
        invariant
            a.len() == b.len(),
            forall|j: int| 0 <= j < i ==> a@[j] == b@[j],
    {
        if a[i] != b[i] {
            return false;
        }
    }
    assert(a@ =~= b@);
    true
}

impl RuleTable {
    /// A table without rules.
    pub fn new() -> (r: RuleTable)
        ensures
            r@ == Map::<Seq<char>, u16>::empty(),
    {
        let r = RuleTable { rules: Vec::new() };
        assert(r.entries() =~= Seq::<(Seq<char>, u16)>::empty());
        r
    }

    /// Gives the marker `marker` the level `level`, in place of any level it had.
    pub fn insert(&mut self, marker: &str, level: u16)
        ensures
            final(self)@ == old(self)@.insert(marker@, level),
    {
        let ghost before = self.entries();
        self.rules.push(Rule { marker: chars_of(marker), level });
        assert(self.entries().drop_last() =~= before);
    }

    /// The table of Markdown headings: `#` gives level 5, `##` level 4, down to
    /// `#####`, which gives level 1.
    pub fn markdown() -> (r: RuleTable)
        ensures
            r@ == markdown_rules(),
    {
        let mut r = RuleTable::new();
        proof {
            reveal_strlit("#");
            reveal_strlit("##");
            reveal_strlit("###");
            reveal_strlit("####");
            reveal_strlit("#####");
        }
        r.insert("#", 5);
        r.insert("##", 4);
        r.insert("###", 3);
        r.insert("####", 2);
        r.insert("#####", 1);
        assert("#"@ =~= hashes(1));
        assert("##"@ =~= hashes(2));
        assert("###"@ =~= hashes(3));
        assert("####"@ =~= hashes(4));
        assert("#####"@ =~= hashes(5));
        assert(r@ =~= markdown_rules());
        r
    }

    /// The level that the marker `t` gives, if the table has it.
    pub fn level_of(&self, t: &Vec<char>) -> (r: Option<u16>)
        ensures
            r == (if self@.contains_key(t@) {
                Some(self@[t@])
            } else {
                None
            }),
    {
        let ghost rs = self.entries();
        let mut i = self.rules.len();
        while i > 0
            invariant
                i <= self.rules.len(),
                rs == self.entries(),
                absent_from(rs, t@, i as int),
            decreases i,
        {
            i = i - 1;
            let rule = &self.rules[i];
            if same_chars(&rule.marker, t) {
                proof {
                    lemma_rules_map_last(rs, t@, i as int);
                }
                return Some(rule.level);
            }
        }
        proof {
            lemma_rules_map_absent(rs, t@);
        }
        None
    }
}

/// The first index from `i` on that does not hold whitespace (or the length).
pub open spec fn skip_blanks(s: Seq<char>, i: int) -> int
    decreases s.len() - i,
{
    if 0 <= i < s.len() && blank(s[i]) {
        skip_blanks(s, i + 1)
    } else {
        i
    }
}

/// The first index from `i` on that holds whitespace (or the length).
pub open spec fn word_end(s: Seq<char>, i: int) -> int
    decreases s.len() - i,
{
    if 0 <= i < s.len() && !blank(s[i]) {
        word_end(s, i + 1)
    } else {
        i
    }
}

/// The first whitespace-delimited token of `s`; none where `s` is all whitespace.
pub open spec fn first_token(s: Seq<char>) -> Option<Seq<char>> {
    let a = skip_blanks(s, 0);
    if a < s.len() {
        Some(s.subrange(a, word_end(s, a)))
    } else {
        None
    }
}

/// `s` with every occurrence of `t` removed, scanning from the left.
pub open spec fn remove_all(s: Seq<char>, t: Seq<char>) -> Seq<char>
    decreases s.len(),
{
    if t.len() == 0 || s.len() < t.len() {
        s
    } else if s.take(t.len() as int) == t {
        remove_all(s.skip(t.len() as int), t)
    } else {
        seq![s[0]] + remove_all(s.skip(1), t)
    }
}

/// The text and level of a line of a file, under the rules `table`.
pub open spec fn marked_up(line: Seq<char>, table: Map<Seq<char>, u16>) -> (Seq<char>, u16) {
    match first_token(line) {
        Some(t) => if table.contains_key(t) {
            (remove_all(line, t), table[t])
        } else {
            (line, NORMAL)
        },
        None => (line, NORMAL),
    }
}

/// A line as it is shown: its text and its emphasis level.
#[derive(Debug, PartialEq, Eq)]
pub struct Parsed {
    /// The line, its marker removed.
    pub line: String,
    /// The emphasis level; `NORMAL` where no rule matched.
    pub level: u16,
}

impl Parsed {
    /// A line shown as `line` at level `level`.
    pub fn new(line: String, level: u16) -> (r: Parsed)
        ensures
            r.line@ == line@,
            r.level == level,
    {
        Parsed { line, level }
    }
}

/// The first whitespace-delimited token of `s`.
fn token_of(s: &Vec<char>) -> (r: Option<Vec<char>>)
    ensures
        match r {
            Some(t) => first_token(s@) == Some(t@) && t@.len() > 0,
            None => first_token(s@) is None,
        },
{
    let n = s.len();
    let mut a: usize = 0;
    while a < n && is_blank(s[a])
        invariant
            n == s.len(),
            a <= n,
            skip_blanks(s@, a as int) == skip_blanks(s@, 0),
        decreases n - a,
    {
        a = a + 1;
    }
    if a == n {
        return None;
    }
    let mut t: Vec<char> = Vec::new();
    let mut e: usize = a;
    while e < n && !is_blank(s[e])
        invariant
            n == s.len(),
            a <= e <= n,
            a < n,
            !blank(s@[a as int]),
            a == skip_blanks(s@, 0),
            word_end(s@, e as int) == word_end(s@, a as int),
            t@ == s@.subrange(a as int, e as int),
        decreases n - e,
    {
        t.push(s[e]);
        e = e + 1;
        assert(t@ =~= s@.subrange(a as int, e as int));
    }
    assert(e > a);
    Some(t)
}

/// Whether `t` occurs in `s` at index `i`.
fn occurs_at(s: &Vec<char>, i: usize, t: &Vec<char>) -> (r: bool)
    requires
        i + t.len() <= s.len(),
    ensures
        r == (s@.subrange(i as int, i + t.len()) == t@),
{
    for k in 0..t.len()
        invariant
            i + t.len() <= s.len(),
            forall|j: int| 0 <= j < k ==> s@[i + j] == t@[j],
    {
        if s[i + k] != t[k] {
            assert(s@.subrange(i as int, i + t.len())[k as int] != t@[k as int]);
            return false;
        }
    }
    assert(s@.subrange(i as int, i + t.len()) =~= t@);
    true
}

/// `line`, whose characters are `s`, with every occurrence of `t` removed.
fn remove_token(line: &str, s: &Vec<char>, t: &Vec<char>) -> (r: String)
    requires
        s@ == line@,
        t.len() > 0,
    ensures
        r@ == remove_all(s@, t@),
{
    let n = s.len();
    let tn = t.len();
    let mut out = String::new();
    let mut start: usize = 0;
    let mut i: usize = 0;
    assert(s@.skip(0) =~= s@);
    assert(out@ + s@.subrange(0, 0) =~= Seq::<char>::empty());
    while tn <= n - i
        invariant
            n == s.len(),
            tn == t.len(),
            tn > 0,
            s@ == line@,
            start <= i <= n,
            out@ + s@.subrange(start as int, i as int) + remove_all(s@.skip(i as int), t@)
                == remove_all(s@, t@),
        decreases n - i,
    {
        let ghost rest = s@.skip(i as int);
        if occurs_at(s, i, t) {
            assert(rest.take(tn as int) =~= s@.subrange(i as int, i + tn));
            assert(rest.skip(tn as int) =~= s@.skip(i + tn));
            out.append(line.substring_char(start, i));
            i = i + tn;
            start = i;
            assert(s@.subrange(start as int, i as int) =~= Seq::<char>::empty());
        } else {
            assert(rest.take(tn as int) =~= s@.subrange(i as int, i + tn));
            assert(rest.skip(1) =~= s@.skip(i + 1));
            assert(s@.subrange(start as int, i + 1) =~= s@.subrange(start as int, i as int)
                + seq![rest[0]]);
            i = i + 1;
        }
    }
    assert(s@.subrange(start as int, i as int) + s@.skip(i as int) =~= s@.subrange(
        start as int,
        n as int,
    ));
    out.append(line.substring_char(start, n));
    out
}

/// Marks up a line of a file under the rules of `table`.
pub fn mark_up(line: String, table: &RuleTable) -> (r: Parsed)
    ensures
        (r.line@, r.level) == marked_up(line@, table@),
{
    let s = chars_of(line.as_str());
    match token_of(&s) {
        None => Parsed::new(line, NORMAL),
        Some(t) => match table.level_of(&t) {
            None => Parsed::new(line, NORMAL),
            Some(level) => Parsed::new(remove_token(line.as_str(), &s, &t), level),
        },
    }
}

} // verus!
