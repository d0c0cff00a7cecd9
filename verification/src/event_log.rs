//! The log of a switch test: what came when, written as comma-separated lines.
use crate::stats::signed_millis;
use crate::stats;
use crate::table::Table;
use crate::text::{after_prefix, decimal, decimal_signed, split_last};
use crate::text;
use vstd::prelude::*;

verus! {

/// The entries come with their instants, in nanoseconds. Objects are named by the labels of their
/// tracks.
pub struct EventLog {
    pub entries: Vec<(u64, String)>,
    pub alias_labels: Table<u64, String>,
    /// The instant from which the log counts: the arrival of the first I-frame.
    pub t0: Option<u64>,
}

/// What the entries of a log say.
pub open spec fn entries_of(es: Seq<(u64, String)>) -> Seq<(u64, Seq<char>)> {
    es.map_values(|e: (u64, String)| (e.0, e.1@))
}

/// The line about an object.
pub open spec fn object_line(label: Seq<char>, group: u64, object: u64) -> Seq<char> {
    "object,"@ + label + ","@ + text::dec(group as nat) + ","@ + text::dec(object as nat)
}

/// The line that gives the presentation time of an object, in milliseconds.
pub open spec fn pt_line(label: Seq<char>, group: u64, object: u64, pt: int) -> Seq<char> {
    "pt,"@ + label + ","@ + text::dec(group as nat) + ","@ + text::dec(object as nat) + ","@
        + text::dec_signed(pt) + ".0"@
}

/// `e` put behind every entry that is not later.
pub open spec fn inserted(s: Seq<(u64, Seq<char>)>, e: (u64, Seq<char>)) -> Seq<(u64, Seq<char>)>
    decreases s.len(),
{
    if s.len() > 0 && s.last().0 > e.0 {
        inserted(s.drop_last(), e).push(s.last())
    } else {
        s.push(e)
    }
}

/// Entries in the order of their instants; those of one instant keep their order.
pub open spec fn sorted(s: Seq<(u64, Seq<char>)>) -> Seq<(u64, Seq<char>)>
    decreases s.len(),
{
    if s.len() == 0 {
        s
    } else {
        inserted(sorted(s.drop_last()), s.last())
    }
}

/// Lines with the signed milliseconds from `t0` at which they were noted.
pub open spec fn timed(s: Seq<(u64, Seq<char>)>, t0: u64) -> Seq<(int, Seq<char>)> {
    s.map_values(|e: (u64, Seq<char>)| (stats::signed_ms_between(t0, e.0), e.1))
}

/// The object that a line gives a presentation time for, and the time.
pub open spec fn pt_entry(line: Seq<char>) -> Option<(Seq<char>, Seq<char>)> {
    if text::starts_with(line, "pt,"@) {
        let rest = line.skip(3);
        match text::last_index_of(rest, ',') {
            Some(i) => Some((rest.take(i as int), rest.skip(i as int + 1))),
            None => None,
        }
    } else {
        None
    }
}

/// The presentation time that was last given for an object at an instant.
pub open spec fn pt_of(lines: Seq<(int, Seq<char>)>, object: Seq<char>, ms: int) -> Option<Seq<char>>
    decreases lines.len(),
{
    if lines.len() == 0 {
        None
    } else {
        match pt_entry(lines.last().1) {
            Some((o, pt)) if o == object && lines.last().0 == ms => Some(pt),
            _ => pt_of(lines.drop_last(), object, ms),
        }
    }
}

/// What one line becomes in the file: presentation times stand behind their objects, and not on
/// lines of their own.
pub open spec fn row(lines: Seq<(int, Seq<char>)>, l: (int, Seq<char>)) -> Seq<char> {
    if text::starts_with(l.1, "pt,"@) {
        Seq::empty()
    } else if text::starts_with(l.1, "object,"@) {
        match pt_of(lines, l.1.skip(7), l.0) {
            Some(pt) => l.1 + ","@ + text::dec_signed(l.0) + ","@ + pt + "\n"@,
            None => l.1 + ","@ + text::dec_signed(l.0) + "\n"@,
        }
    } else {
        l.1 + ","@ + text::dec_signed(l.0) + "\n"@
    }
}

/// The rows of the first `n` lines.
pub open spec fn rows(lines: Seq<(int, Seq<char>)>, n: nat) -> Seq<char>
    decreases n,
{
    if n == 0 {
        Seq::empty()
    } else {
        rows(lines, (n - 1) as nat) + row(lines, lines[n - 1])
    }
}

impl EventLog {
    pub open spec fn wf(&self) -> bool {
        self.alias_labels.wf()
    }

    /// The entries in the order in which they were noted.
    pub open spec fn noted(&self) -> Seq<(u64, Seq<char>)> {
        entries_of(self.entries@)
    }

    /// The label of a track: its alias if none was given.
    pub open spec fn label(&self, alias: u64) -> Seq<char> {
        if self.alias_labels@.contains_key(alias) {
            self.alias_labels@[alias]@
        } else {
            text::dec(alias as nat)
        }
    }

    /// The instant from which the lines are counted.
    pub open spec fn origin(&self) -> u64 {
        match self.t0 {
            Some(t) => t,
            None => self.entries@[0].0,
        }
    }

    /// The lines of the file, each with its milliseconds.
    pub open spec fn lines(&self) -> Seq<(int, Seq<char>)> {
        timed(sorted(self.noted()), self.origin())
    }

    pub fn new() -> (l: Self)
        ensures
            l.wf(),
            l.noted() == Seq::<(u64, Seq<char>)>::empty(),
            l.alias_labels@ == Map::<u64, String>::empty(),
            l.t0 is None,
    {
        let l = EventLog { entries: Vec::new(), alias_labels: Table::new(), t0: None };
        assert(l.noted() =~= Seq::<(u64, Seq<char>)>::empty());
        l
    }

    /// Sets the instant from which the log counts, once. Entries before it get negative times.
    pub fn set_t0(&mut self, t: u64)
        ensures
            *final(self) == (EventLog {
                t0: match old(self).t0 {
                    Some(t) => Some(t),
                    None => Some(t),
                },
                ..*old(self)
            }),
    {
        if self.t0.is_none() {
            self.t0 = Some(t);
        }
    }

    /// Names a track by a label.
    pub fn register_alias(&mut self, alias: u64, label: &str)
        requires
            old(self).wf(),
        ensures
            final(self).wf(),
            final(self).noted() == old(self).noted(),
            final(self).t0 == old(self).t0,
            forall|a: u64| #[trigger]
                final(self).label(a) == if a == alias {
                    label@
                } else {
                    old(self).label(a)
                },
    {
        self.alias_labels.insert(alias, label.to_owned());
    }

    /// Notes the arrival of an object.
    pub fn record_object(&mut self, alias: u64, group: u64, object: u64, ts: u64)
        requires
            old(self).wf(),
        ensures
            final(self).wf(),
            final(self).noted() == old(self).noted().push(
                (ts, object_line(old(self).label(alias), group, object)),
            ),
            *final(self) == (EventLog { entries: final(self).entries, ..*old(self) }),
    {
        let label = match self.alias_labels.get(&alias) {
            Some(l) => l.clone(),
            None => decimal(alias as u128),
        };
        let mut line = "object,".to_owned();
        line.append(label.as_str());
        line.append(",");
        line.append(decimal(group as u128).as_str());
        line.append(",");
        line.append(decimal(object as u128).as_str());
        self.entries.push((ts, line));
        assert(self.noted() =~= old(self).noted().push((ts, line@)));
    }

    /// Notes a line.
    pub fn record(&mut self, ts: u64, line: &str)
        ensures
            final(self).noted() == old(self).noted().push((ts, line@)),
            *final(self) == (EventLog { entries: final(self).entries, ..*old(self) }),
    {
        self.entries.push((ts, line.to_owned()));
        assert(self.noted() =~= old(self).noted().push((ts, line@)));
    }

    /// Notes the presentation time of an object.
    pub fn record_pt(&mut self, ts: u64, label: &str, group: u64, object: u64, pt: i128)
        requires
            pt > i128::MIN,
        ensures
            final(self).noted() == old(self).noted().push(
                (ts, pt_line(label@, group, object, pt as int)),
            ),
            *final(self) == (EventLog { entries: final(self).entries, ..*old(self) }),
    {
        let mut line = "pt,".to_owned();
        line.append(label);
        line.append(",");
        line.append(decimal(group as u128).as_str());
        line.append(",");
        line.append(decimal(object as u128).as_str());
        line.append(",");
        line.append(decimal_signed(pt).as_str());
        line.append(".0");
        self.entries.push((ts, line));
        assert(self.noted() =~= old(self).noted().push((ts, line@)));
    }

    fn in_order(&self) -> (r: Vec<(u64, String)>)
        ensures
            entries_of(r@) == sorted(self.noted()),
    {
        let mut r: Vec<(u64, String)> = Vec::new();
        let ghost all = self.noted();
        let mut i: usize = 0;
        assert(all.take(0) =~= Seq::<(u64, Seq<char>)>::empty());
        assert(entries_of(r@) =~= sorted(all.take(0)));
        while i < self.entries.len()
            invariant
                all == self.noted(),
                i <= self.entries@.len(),
                entries_of(r@) == sorted(all.take(i as int)),
            decreases self.entries@.len() - i,
        {
            let ts: u64 = self.entries[i].0;
            let line = self.entries[i].1.clone();
            let ghost e = (ts, line@);
            let ghost had = r@;
            proof {
                assert(all.take(i + 1).drop_last() =~= all.take(i as int));
                assert(all.take(i + 1).last() == e);
                assert(entries_of(had).take(had.len() as int) =~= entries_of(had));
                assert(entries_of(had).skip(had.len() as int) =~= Seq::<(u64, Seq<char>)>::empty());
                assert(inserted(entries_of(had), e) + Seq::<(u64, Seq<char>)>::empty() =~= inserted(
                    entries_of(had),
                    e,
                ));
            }
            let mut k: usize = r.len();
            while k > 0 && r[k - 1].0 > ts
                invariant
                    r@ == had,
                    k <= r@.len(),
                    e.0 == ts,
                    inserted(entries_of(had), e) == inserted(entries_of(had).take(k as int), e)
                        + entries_of(had).skip(k as int),
                decreases k,
            {
                proof {
                    let s = entries_of(had).take(k as int);
                    assert(s.last() == entries_of(had)[k - 1]);
                    assert(s.drop_last() =~= entries_of(had).take(k - 1));
                    assert(inserted(s.drop_last(), e).push(s.last()) + entries_of(had).skip(
                        k as int,
                    ) =~= inserted(s.drop_last(), e) + entries_of(had).skip(k - 1));
                }
                k = k - 1;
            }
            proof {
                let s = entries_of(had).take(k as int);
                if k > 0 {
                    assert(s.last() == entries_of(had)[k - 1]);
                }
                assert(inserted(s, e) == s.push(e));
            }
            r.insert(k, (ts, line));
            proof {
                assert(entries_of(r@) =~= entries_of(had).take(k as int).push(e) + entries_of(
                    had,
                ).skip(k as int));
            }
            i = i + 1;
        }
        assert(all.take(i as int) =~= all);
        r
    }

    /// The content of the file: the lines in order, each with its milliseconds, and behind an
    /// object its presentation time if that was noted at the same time.
    pub fn content(&self) -> (r: String)
        ensures
            r@ == if self.entries@.len() == 0 {
                Seq::empty()
            } else {
                rows(self.lines(), self.lines().len())
            },
    {
        if self.entries.len() == 0 {
            return String::new();
        }
        let t0: u64 = match self.t0 {
            Some(t) => t,
            None => self.entries[0].0,
        };
        let entries = self.in_order();
        let ghost lines = self.lines();
        let mut ms: Vec<i128> = Vec::new();
        let mut pts: Vec<Option<(String, String)>> = Vec::new();
        let mut i: usize = 0;
        while i < entries.len()
            invariant
                t0 == self.origin(),
                lines == self.lines(),
                entries_of(entries@) == sorted(self.noted()),
                i <= entries@.len(),
                ms@.len() == i,
                pts@.len() == i,
                forall|j: int| 0 <= j < i ==> #[trigger] ms@[j] == lines[j].0 && ms@[j] > i128::MIN,
                forall|j: int| 0 <= j < i ==> pt_shown(#[trigger] pts@[j], lines[j].1),
            decreases entries@.len() - i,
        {
            assert(lines[i as int].1 == entries@[i as int].1@);
            ms.push(signed_millis(t0, entries[i].0));
            let p = pt_of_line(entries[i].1.as_str());
            pts.push(p);
            i = i + 1;
        }
        proof {
            assert(lines.len() == entries@.len());
        }
        let mut r = String::new();
        let mut i: usize = 0;
        while i < entries.len()
            invariant
                lines == self.lines(),
                entries_of(entries@) == sorted(self.noted()),
                lines.len() == entries@.len(),
                ms@.len() == entries@.len(),
                pts@.len() == entries@.len(),
                forall|j: int|
                    0 <= j < ms@.len() ==> #[trigger] ms@[j] == lines[j].0 && ms@[j] > i128::MIN,
                forall|j: int| 0 <= j < pts@.len() ==> pt_shown(#[trigger] pts@[j], lines[j].1),
                i <= entries@.len(),
                r@ == rows(lines, i as nat),
            decreases entries@.len() - i,
        {
            let line: &str = entries[i].1.as_str();
            proof {
                assert(lines[i as int].1 == line@);
                assert(ms@[i as int] == lines[i as int].0);
                reveal_strlit("pt,");
                reveal_strlit("object,");
                assert(line@.skip(0) =~= line@);
            }
            let ghost before = r@;
            if !text::stands_at(line, "pt,", 0) {
                r.append(line);
                r.append(",");
                r.append(decimal_signed(ms[i]).as_str());
                if let Some(object) = after_prefix(line, "object,") {
                    if let Some(k) = find_pt(&ms, &pts, &object, ms[i], Ghost(lines)) {
                        r.append(",");
                        match &pts[k] {
                            Some(p) => {
                                r.append(p.1.as_str());
                            },
                            None => {},
                        }
                    }
                }
                r.append("\n");
            }
            assert(r@ =~= before + row(lines, lines[i as int]));
            i = i + 1;
        }
        r
    }
}

/// `p` is what a line says of a presentation time.
pub open spec fn pt_shown(p: Option<(String, String)>, line: Seq<char>) -> bool {
    match p {
        Some((o, t)) => pt_entry(line) == Some((o@, t@)),
        None => pt_entry(line) is None,
    }
}

fn pt_of_line(line: &str) -> (p: Option<(String, String)>)
    ensures
        pt_shown(p, line@),
{
    proof {
        reveal_strlit("pt,");
    }
    match after_prefix(line, "pt,") {
        Some(rest) => split_last(rest.as_str(), ','),
        None => None,
    }
}

fn find_pt(
    ms: &Vec<i128>,
    pts: &Vec<Option<(String, String)>>,
    object: &String,
    at: i128,
    Ghost(lines): Ghost<Seq<(int, Seq<char>)>>,
) -> (r: Option<usize>)
    requires
        ms@.len() == lines.len(),
        pts@.len() == lines.len(),
        forall|j: int| 0 <= j < ms@.len() ==> #[trigger] ms@[j] == lines[j].0,
        forall|j: int| 0 <= j < pts@.len() ==> pt_shown(#[trigger] pts@[j], lines[j].1),
    ensures
        match r {
            Some(k) => k < pts@.len() && (pts@[k as int] matches Some(p) && pt_of(
                lines,
                object@,
                at as int,
            ) == Some(p.1@)),
            None => pt_of(lines, object@, at as int) is None,
        },
{
    let mut i: usize = ms.len();
    assert(lines.take(i as int) =~= lines);
    while i > 0
        invariant
            ms@.len() == lines.len(),
            pts@.len() == lines.len(),
            forall|j: int| 0 <= j < ms@.len() ==> #[trigger] ms@[j] == lines[j].0,
            forall|j: int| 0 <= j < pts@.len() ==> pt_shown(#[trigger] pts@[j], lines[j].1),
            i <= ms@.len(),
            pt_of(lines, object@, at as int) == pt_of(lines.take(i as int), object@, at as int),
        decreases i,
    {
        proof {
            assert(lines.take(i as int).last() == lines[i - 1]);
            assert(lines.take(i as int).drop_last() =~= lines.take(i - 1));
            assert(pt_shown(pts@[i - 1], lines[i - 1].1));
            assert(ms@[i - 1] == lines[i - 1].0);
        }
        if ms[i - 1] == at {
            if let Some(p) = &pts[i - 1] {
                if p.0 == *object {
                    return Some(i - 1);
                }
            }
        }
        i = i - 1;
    }
    None
}

proof fn lemma_inserted(s: Seq<(u64, Seq<char>)>, e: (u64, Seq<char>))
    requires
        forall|i: int, j: int| 0 <= i <= j < s.len() ==> (#[trigger] s[i]).0 <= (#[trigger] s[j]).0,
    ensures
        forall|i: int, j: int|
            0 <= i <= j < inserted(s, e).len() ==> (#[trigger] inserted(s, e)[i]).0 <= (
            #[trigger] inserted(s, e)[j]).0,
        inserted(s, e).to_multiset() == s.to_multiset().insert(e),
        inserted(s, e).len() == s.len() + 1,
        s.len() > 0 ==> inserted(s, e).last().0 == if s.last().0 > e.0 {
            s.last().0
        } else {
            e.0
        },
    decreases s.len(),
{
    broadcast use vstd::seq_lib::group_to_multiset_ensures;

    if s.len() > 0 && s.last().0 > e.0 {
        let t = s.drop_last();
        lemma_inserted(t, e);
        let u = inserted(t, e);
        assert(s =~= t.push(s.last()));
        assert forall|i: int, j: int| 0 <= i <= j < inserted(s, e).len() implies (
        #[trigger] inserted(s, e)[i]).0 <= (#[trigger] inserted(s, e)[j]).0 by {
            if j < u.len() {
                assert(u[i].0 <= u[j].0);
            } else if i < u.len() {
                assert(u[i].0 <= u.last().0);
                if t.len() > 0 {
                    assert(t.last() == s[t.len() - 1]);
                    assert(s[t.len() - 1].0 <= s[s.len() - 1].0);
                } else {
                    assert(u =~= t.push(e));
                }
            }
        }
        assert(u.push(s.last()).to_multiset() =~= s.to_multiset().insert(e));
    } else {
        assert forall|i: int, j: int| 0 <= i <= j < s.push(e).len() implies (
        #[trigger] s.push(e)[i]).0 <= (#[trigger] s.push(e)[j]).0 by {
            if i < s.len() && j == s.len() {
                assert(s[i].0 <= s[s.len() - 1].0);
            } else if j < s.len() {
                assert(s[i].0 <= s[j].0);
            }
        }
    }
}

/// The log is written in the order of time, and nothing is lost or added by that.
pub proof fn law_log_is_in_order(s: Seq<(u64, Seq<char>)>)
    ensures
        forall|i: int, j: int|
            0 <= i <= j < sorted(s).len() ==> (#[trigger] sorted(s)[i]).0 <= (
            #[trigger] sorted(s)[j]).0,
        sorted(s).to_multiset() == s.to_multiset(),
    decreases s.len(),
{
    broadcast use vstd::seq_lib::group_to_multiset_ensures;

    if s.len() > 0 {
        law_log_is_in_order(s.drop_last());
        lemma_inserted(sorted(s.drop_last()), s.last());
        assert(s =~= s.drop_last().push(s.last()));
    }
}

/// The entries of one instant, in order.
pub open spec fn at_instant(s: Seq<(u64, Seq<char>)>, t: u64) -> Seq<(u64, Seq<char>)>
    decreases s.len(),
{
    if s.len() == 0 {
        Seq::empty()
    } else if s.last().0 == t {
        at_instant(s.drop_last(), t).push(s.last())
    } else {
        at_instant(s.drop_last(), t)
    }
}

proof fn lemma_inserted_at_instant(s: Seq<(u64, Seq<char>)>, e: (u64, Seq<char>), t: u64)
    ensures
        at_instant(inserted(s, e), t) == if e.0 == t {
            at_instant(s, t).push(e)
        } else {
            at_instant(s, t)
        },
    decreases s.len(),
{
    if s.len() > 0 && s.last().0 > e.0 {
        lemma_inserted_at_instant(s.drop_last(), e, t);
        assert(inserted(s, e).drop_last() =~= inserted(s.drop_last(), e));
    } else {
        assert(s.push(e).drop_last() =~= s);
    }
}

/// Entries of one instant are written in the order in which they were noted.
pub proof fn law_entries_of_one_instant_keep_their_order(s: Seq<(u64, Seq<char>)>, t: u64)
    ensures
        at_instant(sorted(s), t) == at_instant(s, t),
    decreases s.len(),
{
    if s.len() > 0 {
        law_entries_of_one_instant_keep_their_order(s.drop_last(), t);
        lemma_inserted_at_instant(sorted(s.drop_last()), s.last(), t);
    }
}

/// The entries that get a row: all but those that give a presentation time.
pub open spec fn shown(s: Seq<(u64, Seq<char>)>) -> Seq<(u64, Seq<char>)>
    decreases s.len(),
{
    if s.len() == 0 {
        Seq::empty()
    } else if text::starts_with(s.last().1, "pt,"@) {
        shown(s.drop_last())
    } else {
        shown(s.drop_last()).push(s.last())
    }
}

/// The rows of some of the lines.
pub open spec fn rows_of(
    lines: Seq<(int, Seq<char>)>,
    some: Seq<(int, Seq<char>)>,
) -> Seq<char>
    decreases some.len(),
{
    if some.len() == 0 {
        Seq::empty()
    } else {
        rows_of(lines, some.drop_last()) + row(lines, some.last())
    }
}

proof fn lemma_shown_of_push(s: Seq<(u64, Seq<char>)>, e: (u64, Seq<char>))
    ensures
        shown(s.push(e)) == if text::starts_with(e.1, "pt,"@) {
            shown(s)
        } else {
            shown(s).push(e)
        },
{
    assert(s.push(e).drop_last() =~= s);
}

proof fn lemma_shown_is_no_later(s: Seq<(u64, Seq<char>)>)
    requires
        forall|i: int, j: int| 0 <= i <= j < s.len() ==> (#[trigger] s[i]).0 <= (#[trigger] s[j]).0,
        shown(s).len() > 0,
    ensures
        shown(s).last().0 <= s.last().0,
    decreases s.len(),
{
    if text::starts_with(s.last().1, "pt,"@) {
        let t = s.drop_last();
        lemma_shown_is_no_later(t);
        assert(t.last() == s[t.len() - 1]);
        assert(s[t.len() - 1].0 <= s[s.len() - 1].0);
    }
}

proof fn lemma_shown_of_inserted(s: Seq<(u64, Seq<char>)>, e: (u64, Seq<char>))
    requires
        forall|i: int, j: int| 0 <= i <= j < s.len() ==> (#[trigger] s[i]).0 <= (#[trigger] s[j]).0,
    ensures
        shown(inserted(s, e)) == if text::starts_with(e.1, "pt,"@) {
            shown(s)
        } else {
            inserted(shown(s), e)
        },
    decreases s.len(),
{
    if s.len() > 0 && s.last().0 > e.0 {
        let t = s.drop_last();
        let l = s.last();
        lemma_shown_of_inserted(t, e);
        lemma_shown_of_push(inserted(t, e), l);
        if !text::starts_with(l.1, "pt,"@) {
            assert(shown(s) == shown(t).push(l));
            assert(shown(t).push(l).drop_last() =~= shown(t));
        }
    } else {
        lemma_shown_of_push(s, e);
        if shown(s).len() > 0 {
            lemma_shown_is_no_later(s);
        }
    }
}

proof fn lemma_shown_of_sorted(s: Seq<(u64, Seq<char>)>)
    ensures
        shown(sorted(s)) == sorted(shown(s)),
    decreases s.len(),
{
    if s.len() > 0 {
        let t = s.drop_last();
        lemma_shown_of_sorted(t);
        law_log_is_in_order(t);
        lemma_shown_of_inserted(sorted(t), s.last());
        if !text::starts_with(s.last().1, "pt,"@) {
            assert(shown(s).drop_last() =~= shown(t));
        }
    }
}

proof fn lemma_rows(s: Seq<(u64, Seq<char>)>, t0: u64, n: nat)
    requires
        n <= s.len(),
    ensures
        rows(timed(s, t0), n) == rows_of(timed(s, t0), timed(shown(s.take(n as int)), t0)),
    decreases n,
{
    let lines = timed(s, t0);
    if n == 0 {
        assert(timed(shown(s.take(0)), t0) =~= Seq::<(int, Seq<char>)>::empty());
    } else {
        let m = (n - 1) as nat;
        lemma_rows(s, t0, m);
        let e = s[n - 1];
        assert(s.take(n as int) =~= s.take(m as int).push(e));
        lemma_shown_of_push(s.take(m as int), e);
        let before = timed(shown(s.take(m as int)), t0);
        if text::starts_with(e.1, "pt,"@) {
            assert(rows(lines, m) + row(lines, lines[n - 1]) =~= rows(lines, m));
        } else {
            let l = lines[n - 1];
            assert(timed(shown(s.take(m as int)).push(e), t0) =~= before.push(l));
            assert(before.push(l).drop_last() =~= before);
        }
    }
}

/// The file has exactly one row for each entry that gives no presentation time, in the order of
/// their instants and with their milliseconds from the origin, and no other. A row begins with
/// its entry, which is no entry of a presentation time, and ends the line.
pub proof fn law_one_row_for_each_entry(log: EventLog)
    ensures
        ({
            let some = timed(sorted(shown(log.noted())), log.origin());
            &&& rows(log.lines(), log.lines().len()) == rows_of(log.lines(), some)
            &&& some.len() == shown(log.noted()).len()
            &&& forall|k: int|
                0 <= k < some.len() ==> {
                    let r = row(log.lines(), #[trigger] some[k]);
                    &&& !text::starts_with(some[k].1, "pt,"@)
                    &&& text::starts_with(r, some[k].1 + ","@ + text::dec_signed(some[k].0))
                    &&& r.len() > 0 && r.last() == '\n'
                }
        }),
{
    let s = sorted(log.noted());
    let all = log.lines();
    let kept = sorted(shown(log.noted()));
    let some = timed(kept, log.origin());
    assert(s.take(s.len() as int) =~= s);
    lemma_rows(s, log.origin(), s.len());
    lemma_shown_of_sorted(log.noted());
    law_log_is_in_order(shown(log.noted()));
    kept.to_multiset_ensures();
    shown(log.noted()).to_multiset_ensures();
    reveal_strlit("\n");
    assert forall|k: int| 0 <= k < some.len() implies ({
        let r = row(all, #[trigger] some[k]);
        &&& !text::starts_with(some[k].1, "pt,"@)
        &&& text::starts_with(r, some[k].1 + ","@ + text::dec_signed(some[k].0))
        &&& r.len() > 0 && r.last() == '\n'
    }) by {
        lemma_shown_gives_no_time(s, k);
        let head = some[k].1 + ","@ + text::dec_signed(some[k].0);
        let r = row(all, some[k]);
        assert(r.take(head.len() as int) =~= head);
    }
}

proof fn lemma_shown_gives_no_time(s: Seq<(u64, Seq<char>)>, k: int)
    requires
        0 <= k < shown(s).len(),
    ensures
        !text::starts_with(shown(s)[k].1, "pt,"@),
    decreases s.len(),
{
    if text::starts_with(s.last().1, "pt,"@) || k < shown(s).len() - 1 {
        lemma_shown_gives_no_time(s.drop_last(), k);
    }
}

/// A presentation time that is noted for an object is found for it: what the line of the time names
/// is what stands behind the line of the object. The last one noted at the same millisecond counts,
/// and one noted for another object or at another millisecond does not.
pub proof fn law_presentation_times_find_their_object(
    lines: Seq<(int, Seq<char>)>,
    label: Seq<char>,
    group: u64,
    object: u64,
    pt: int,
    ms: int,
    other: Seq<char>,
    at: int,
)
    ensures
        pt_entry(pt_line(label, group, object, pt)) == Some(
            (object_line(label, group, object).skip(7), text::dec_signed(pt) + ".0"@),
        ),
        pt_entry(object_line(label, group, object)) is None,
        text::starts_with(object_line(label, group, object), "object,"@),
        !text::starts_with(object_line(label, group, object), "pt,"@),
        pt_of(
            lines.push((ms, pt_line(label, group, object, pt))),
            object_line(label, group, object).skip(7),
            ms,
        ) == Some(text::dec_signed(pt) + ".0"@),
        other != object_line(label, group, object).skip(7) || at != ms ==> pt_of(
            lines.push((ms, pt_line(label, group, object, pt))),
            other,
            at,
        ) == pt_of(lines, other, at),
{
    reveal_strlit("pt,");
    reveal_strlit("object,");
    reveal_strlit(",");
    reveal_strlit(".0");
    let line = pt_line(label, group, object, pt);
    let obj = object_line(label, group, object);
    let key = label + ","@ + text::dec(group as nat) + ","@ + text::dec(object as nat);
    let time = text::dec_signed(pt) + ".0"@;
    let rest = line.skip(3);
    assert(line =~= "pt,"@ + (key + ","@ + time));
    assert(obj =~= "object,"@ + key);
    assert(line.take(3) =~= "pt,"@);
    assert(rest =~= key + ","@ + time);
    assert(obj.skip(7) =~= key);
    assert(obj.take(7) =~= "object,"@);
    assert(obj[0] == 'o');
    assert(!text::starts_with(obj, "pt,"@)) by {
        if text::starts_with(obj, "pt,"@) {
            assert(obj.take(3)[0] == 'p');
        }
    }
    text::law_the_last_place_of_a_character(rest, ',');
    text::law_decimal_holds_digits(pt, pt);
    let n = key.len() as int;
    assert(rest[n] == ',');
    assert(rest.contains(','));
    assert forall|j: int| n < j < rest.len() implies rest[j] != ',' by {
        assert(rest[j] == time[j - n - 1]);
        let d = text::dec_signed(pt);
        if j - n - 1 < d.len() {
            assert(time[j - n - 1] == d[j - n - 1]);
        }
    }
    let i = text::last_index_of(rest, ',')->Some_0 as int;
    assert(i == n);
    assert(rest.take(n) =~= key);
    assert(rest.skip(n + 1) =~= time);
    let all = lines.push((ms, line));
    assert(all.drop_last() =~= lines);
    assert(all.last() == (ms, line));
}

/// The row of an object ends with its presentation time where one was noted at the same
/// millisecond, and with its own milliseconds where none was. A presentation time has no row.
pub proof fn law_the_row_of_an_object(
    lines: Seq<(int, Seq<char>)>,
    label: Seq<char>,
    group: u64,
    object: u64,
    ms: int,
    pt: int,
)
    ensures
        ({
            let l = (ms, object_line(label, group, object));
            let found = pt_of(lines, object_line(label, group, object).skip(7), ms);
            &&& found is None ==> row(lines, l) == l.1 + ","@ + text::dec_signed(ms) + "\n"@
            &&& found matches Some(t) ==> row(lines, l) == l.1 + ","@ + text::dec_signed(ms) + ","@
                + t + "\n"@
            &&& row(lines, (ms, pt_line(label, group, object, pt))).len() == 0
        }),
{
    law_presentation_times_find_their_object(
        lines,
        label,
        group,
        object,
        pt,
        ms,
        Seq::empty(),
        ms,
    );
    reveal_strlit("pt,");
    reveal_strlit("object,");
    let line = pt_line(label, group, object, pt);
    assert(line.take(3) =~= "pt,"@);
}

/// Every line keeps its text, and its time is the signed distance of its instant from the origin;
/// the origin is the instant that was set, and the first entry's where none was.
pub proof fn law_lines_are_timed_from_the_origin(log: EventLog, i: int)
    requires
        0 <= i < log.lines().len(),
    ensures
        log.lines().len() == log.noted().len(),
        log.lines()[i].1 == sorted(log.noted())[i].1,
        log.lines()[i].0 == stats::signed_ms_between(log.origin(), sorted(log.noted())[i].0),
        log.t0 matches Some(t) ==> log.origin() == t,
        log.t0 is None ==> log.origin() == log.noted()[0].0,
{
    law_log_is_in_order(log.noted());
    sorted(log.noted()).to_multiset_ensures();
    log.noted().to_multiset_ensures();
}

/// A track has the label that it was given, and without one its alias in decimal, so tracks without
/// labels are told apart. The line of an object holds its label, its group and its place in the
/// group, each behind a comma.
pub proof fn law_lines_name_their_object(log: EventLog, alias: u64, group: u64, object: u64)
    ensures
        log.alias_labels@.contains_key(alias) ==> log.label(alias) == log.alias_labels@[alias]@,
        !log.alias_labels@.contains_key(alias) ==> text::number(log.label(alias)) == Some(
            alias as nat,
        ),
        !log.label(alias).contains(',') ==> text::split(
            object_line(log.label(alias), group, object),
            ',',
        ) == seq![
            "object"@,
            log.label(alias),
            text::dec(group as nat),
            text::dec(object as nat),
        ],
{
    text::law_decimal_reads_back(alias as nat);
    let l = log.label(alias);
    if !l.contains(',') {
        reveal_strlit("object,");
        reveal_strlit("object");
        reveal_strlit(",");
        let g = text::dec(group as nat);
        let o = text::dec(object as nat);
        text::law_decimal_holds_digits(group as int, group as int);
        text::law_decimal_holds_digits(object as int, object as int);
        let head = "object"@;
        let last = g + seq![','] + o;
        let rest = l + seq![','] + last;
        assert(!head.contains(','));
        assert(!g.contains(','));
        assert(!o.contains(','));
        assert(object_line(l, group, object) =~= head + seq![','] + rest);
        text::lemma_split_halves(head, ',', rest);
        text::lemma_split_halves(l, ',', last);
        text::lemma_split_halves(g, ',', o);
        text::lemma_split_of_one(head, ',');
        text::lemma_split_of_one(l, ',');
        text::lemma_split_of_one(g, ',');
        text::lemma_split_of_one(o, ',');
        assert(text::split(object_line(l, group, object), ',') =~= seq![head, l, g, o]);
    }
}

} // verus!
