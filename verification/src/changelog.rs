//! The user-facing changelog parser.
//!
//! Understands exactly the Keep-a-Changelog shape: `## [version] - date`
//! headings, `### Section` headings, and `- **Lead.** body` bullets. A wrapped
//! bullet or a second line of prose continues the item above it; content
//! before any `###` heading goes into an unnamed section; `## [Unreleased]`
//! and anything else that is not a version starts no release.
use vstd::prelude::*;
use vstd::string::StringExecFns;
use crate::text::{trim, trim_chars, chars_to_string, is_blank, chars_are_blank, starts_with, chars_start_with, matches_at};

verus! {

broadcast use vstd::string::group_string_axioms;

/// One bullet, split at its bold lead.
#[derive(Debug, Clone)]
pub struct NotesItem {
    /// The bold opening, without its asterisks; `None` when there is none.
    pub lead: Option<String>,
    /// Everything after the lead, or the whole bullet when there is none.
    pub body: String,
}

/// An `### Added` / `### Fixed` group.
#[derive(Debug, Clone)]
pub struct NotesSection {
    pub heading: String,
    pub items: Vec<NotesItem>,
}

/// One release's notes.
#[derive(Debug, Clone)]
pub struct ReleaseNotes {
    /// The version, without brackets.
    pub version: String,
    /// Whatever the heading carries after the dash, verbatim.
    pub date: Option<String>,
    pub sections: Vec<NotesSection>,
}

/// An item by its text.
#[verifier::ext_equal]
pub struct ItemModel {
    pub lead: Option<Seq<char>>,
    pub body: Seq<char>,
}

/// A section by its text.
#[verifier::ext_equal]
pub struct SectionModel {
    pub heading: Seq<char>,
    pub items: Seq<ItemModel>,
}

/// A release by its text.
#[verifier::ext_equal]
pub struct ReleaseModel {
    pub version: Seq<char>,
    pub date: Option<Seq<char>>,
    pub sections: Seq<SectionModel>,
}

/// An optional string by its characters.
pub open spec fn opt_view(o: Option<String>) -> Option<Seq<char>> {
    match o {
        Some(s) => Some(s@),
        None => None,
    }
}

impl View for NotesItem {
    type V = ItemModel;

    open spec fn view(&self) -> ItemModel {
        ItemModel { lead: opt_view(self.lead), body: self.body@ }
    }
}

/// Items by their text.
pub open spec fn items_view(v: Seq<NotesItem>) -> Seq<ItemModel> {
    v.map_values(|i: NotesItem| i@)
}

impl View for NotesSection {
    type V = SectionModel;

    open spec fn view(&self) -> SectionModel {
        SectionModel { heading: self.heading@, items: items_view(self.items@) }
    }
}

/// Sections by their text.
pub open spec fn sections_view(v: Seq<NotesSection>) -> Seq<SectionModel> {
    v.map_values(|s: NotesSection| s@)
}

impl View for ReleaseNotes {
    type V = ReleaseModel;

    open spec fn view(&self) -> ReleaseModel {
        ReleaseModel { version: self.version@, date: opt_view(self.date), sections: sections_view(self.sections@) }
    }
}

/// Releases by their text.
pub open spec fn releases_view(v: Seq<ReleaseNotes>) -> Seq<ReleaseModel> {
    v.map_values(|r: ReleaseNotes| r@)
}

/// Index of the first occurrence of `p` in `s`, or -1.
pub open spec fn find(s: Seq<char>, p: Seq<char>) -> int
    decreases s.len(),
{
    if s.len() < p.len() {
        -1
    } else if s.take(p.len() as int) == p {
        0
    } else if s.len() == 0 {
        -1
    } else {
        let r = find(s.drop_first(), p);
        if r < 0 { -1 } else { r + 1 }
    }
}

/// The bold-lead marker.
pub open spec fn stars() -> Seq<char> {
    seq!['*', '*']
}

/// A bullet split at its bold lead: when the trimmed bullet starts with `**`
/// and the rest holds another `**`, the text between them (trimmed) is the
/// lead and the text after (trimmed) the body; otherwise the whole trimmed
/// bullet is the body.
pub open spec fn spec_parse_item(bullet: Seq<char>) -> ItemModel {
    let t = trim(bullet);
    if starts_with(t, stars()) && find(t.skip(2), stars()) >= 0 {
        let rest = t.skip(2);
        let k = find(rest, stars());
        ItemModel { lead: Some(trim(rest.take(k))), body: trim(rest.skip(k + 2)) }
    } else {
        ItemModel { lead: None, body: t }
    }
}

/// `find` reports -1 or an index where the pattern actually occurs.
pub proof fn lemma_find_occurs(s: Seq<char>, p: Seq<char>)
    ensures
        find(s, p) >= -1,
        find(s, p) >= 0 ==> find(s, p) + p.len() <= s.len() && s.subrange(find(s, p), find(s, p) + p.len()) == p,
    decreases s.len(),
{
    if s.len() >= p.len() && s.take(p.len() as int) != p && s.len() > 0 {
        lemma_find_occurs(s.drop_first(), p);
        let r = find(s.drop_first(), p);
        if r >= 0 {
            assert(s.subrange(r + 1, r + 1 + p.len()) =~= s.drop_first().subrange(r, r + p.len()));
        }
    }
    if s.len() >= p.len() && s.take(p.len() as int) == p {
        assert(s.subrange(0, p.len() as int) =~= s.take(p.len() as int));
    }
}

fn find_chars(s: &[char], p: &[char]) -> (r: Option<usize>)
    ensures
        match r {
            Some(k) => find(s@, p@) == k as int,
            None => find(s@, p@) == -1,
        },
{
    let n = s.len();
    let m = p.len();
    let mut i: usize = 0;
    proof {
        assert(s@.skip(0) =~= s@);
        lemma_find_occurs(s@, p@);
    }
    while i < n && m <= n - i
        invariant
            i <= n,
            n == s@.len(),
            m == p@.len(),
            find(s@, p@) == if find(s@.skip(i as int), p@) < 0 { -1 } else { find(s@.skip(i as int), p@) + i },
        decreases n - i,
    {
        let ghost rest = s@.skip(i as int);
        if matches_at(s, i, p) {
            assert(rest.take(m as int) =~= s@.subrange(i as int, i + m));
            return Some(i);
        }
        assert(rest.take(m as int) =~= s@.subrange(i as int, i + m));
        assert(rest.drop_first() =~= s@.skip(i + 1));
        i = i + 1;
    }
    proof {
        let rest = s@.skip(i as int);
        if m <= n - i {
            assert(i == n);
            if m == 0 {
                assert(rest.take(0) =~= p@);
            }
        }
    }
    if m <= n - i {
        let ghost rest = s@.skip(i as int);
        assert(rest.take(m as int) =~= p@);
        return Some(i);
    }
    None
}


/// Split a bullet at its `**bold lead**`.
pub fn parse_item(bullet: &str) -> (r: NotesItem)
    ensures
        r@ == spec_parse_item(bullet@),
{
    let b = crate::text::str_chars(bullet);
    parse_item_chars(b.as_slice())
}

fn parse_item_chars(b: &[char]) -> (r: NotesItem)
    ensures
        r@ == spec_parse_item(b@),
{
    let t = trim_chars(b);
    let star2 = vec!['*', '*'];
    assert(star2@ =~= stars());
    if chars_start_with(t.as_slice(), star2.as_slice()) {
        let rest = crate::text::sub_chars(t.as_slice(), 2, t.len());
        assert(rest@ =~= t@.skip(2));
        proof {
            lemma_find_occurs(rest@, stars());
        }
        if let Some(k) = find_chars(rest.as_slice(), star2.as_slice()) {
            let lead = crate::text::sub_chars(rest.as_slice(), 0, k);
            let body = crate::text::sub_chars(rest.as_slice(), k + 2, rest.len());
            assert(lead@ =~= rest@.take(k as int));
            assert(body@ =~= rest@.skip(k + 2));
            let lead_t = trim_chars(lead.as_slice());
            let body_t = trim_chars(body.as_slice());
            return NotesItem {
                lead: Some(chars_to_string(lead_t.as_slice())),
                body: chars_to_string(body_t.as_slice()),
            };
        }
    }
    NotesItem { lead: None, body: chars_to_string(t.as_slice()) }
}

} // verus!

verus! {

/// An ASCII digit.
pub open spec fn is_digit(c: char) -> bool {
    '0' <= c && c <= '9'
}

/// The date part of a heading's tail: after trimming, a leading `-` is
/// dropped and the rest trimmed; an empty date is no date.
pub open spec fn spec_heading_date(rest: Seq<char>) -> Option<Seq<char>> {
    let t = trim(rest);
    if t.len() > 0 && t[0] == '-' && trim(t.skip(1)).len() > 0 {
        Some(trim(t.skip(1)))
    } else {
        None
    }
}

/// `[2026.6.7] - 2026-06-25` gives version `2026.6.7` and date `2026-06-25`.
/// Anything that is not `[`, a version starting with a digit, and `]` gives
/// nothing.
pub open spec fn spec_parse_version_heading(heading: Seq<char>) -> Option<(Seq<char>, Option<Seq<char>>)> {
    let h = trim(heading);
    if h.len() == 0 || h[0] != '[' {
        None
    } else {
        let inner = h.skip(1);
        let k = find(inner, seq![']']);
        if k < 0 {
            None
        } else {
            let version = inner.take(k);
            if version.len() == 0 || !is_digit(version[0]) {
                None
            } else {
                Some((version, spec_heading_date(inner.skip(k + 1))))
            }
        }
    }
}

/// Parse a version heading (the text after `## `).
pub fn parse_version_heading(heading: &str) -> (r: Option<(String, Option<String>)>)
    ensures
        match spec_parse_version_heading(heading@) {
            None => r is None,
            Some((v, d)) => r matches Some((rv, rd)) && rv@ == v && opt_view(rd) == d,
        },
{
    let hv = crate::text::str_chars(heading);
    parse_version_heading_chars(hv.as_slice())
}

fn parse_version_heading_chars(heading: &[char]) -> (r: Option<(String, Option<String>)>)
    ensures
        match spec_parse_version_heading(heading@) {
            None => r is None,
            Some((v, d)) => r matches Some((rv, rd)) && rv@ == v && opt_view(rd) == d,
        },
{
    let h = trim_chars(heading);
    if h.len() == 0 || h[0] != '[' {
        return None;
    }
    let inner = crate::text::sub_chars(h.as_slice(), 1, h.len());
    assert(inner@ =~= h@.skip(1));
    let close = vec![']'];
    assert(close@ =~= seq![']']);
    proof {
        lemma_find_occurs(inner@, seq![']']);
    }
    let k = match find_chars(inner.as_slice(), close.as_slice()) {
        Some(k) => k,
        None => {
            return None;
        },
    };
    let version = crate::text::sub_chars(inner.as_slice(), 0, k);
    assert(version@ =~= inner@.take(k as int));
    if version.len() == 0 || !('0' <= version[0] && version[0] <= '9') {
        return None;
    }
    let rest = crate::text::sub_chars(inner.as_slice(), k + 1, inner.len());
    assert(rest@ =~= inner@.skip(k + 1));
    let t = trim_chars(rest.as_slice());
    let date = if t.len() > 0 && t[0] == '-' {
        let after = crate::text::sub_chars(t.as_slice(), 1, t.len());
        assert(after@ =~= t@.skip(1));
        let d = trim_chars(after.as_slice());
        if d.len() > 0 {
            Some(chars_to_string(d.as_slice()))
        } else {
            None
        }
    } else {
        None
    };
    Some((chars_to_string(version.as_slice()), date))
}

/// A line without the `\r` of a `\r\n` ending.
pub open spec fn strip_cr(l: Seq<char>) -> Seq<char> {
    if l.len() > 0 && l.last() == '\r' { l.drop_last() } else { l }
}

/// The lines of `s` as `str::lines` gives them: split at `\n`, a `\r` just
/// before a `\n` removed, and no empty line after a final `\n`.
pub open spec fn spec_lines(s: Seq<char>) -> Seq<Seq<char>>
    decreases s.len(),
{
    if s.len() == 0 {
        Seq::empty()
    } else {
        let k = find(s, seq!['\n']);
        if k < 0 {
            seq![s]
        } else {
            proof {
                lemma_find_occurs(s, seq!['\n']);
            }
            seq![strip_cr(s.take(k))] + spec_lines(s.skip(k + 1))
        }
    }
}

proof fn lemma_lines_decreases(s: Seq<char>)
    ensures
        find(s, seq!['\n']) >= 0 ==> s.skip(find(s, seq!['\n']) + 1).len() < s.len(),
{
    lemma_find_occurs(s, seq!['\n']);
}

/// Split text into lines.
pub fn split_lines(s: &[char]) -> (r: Vec<Vec<char>>)
    ensures
        r@.map_values(|l: Vec<char>| l@) == spec_lines(s@),
{
    let mut out: Vec<Vec<char>> = Vec::new();
    let mut start: usize = 0;
    let n = s.len();
    let nl = vec!['\n'];
    assert(nl@ =~= seq!['\n']);
    assert(s@.skip(0) =~= s@);
    while start < n
        invariant
            start <= n,
            n == s@.len(),
            nl@ == seq!['\n'],
            out@.map_values(|l: Vec<char>| l@) + spec_lines(s@.skip(start as int)) == spec_lines(s@),
        decreases n - start,
    {
        let rest = crate::text::sub_chars(s, start, n);
        assert(rest@ =~= s@.skip(start as int));
        proof {
            lemma_find_occurs(rest@, seq!['\n']);
        }
        let ghost before = out@.map_values(|l: Vec<char>| l@);
        match find_chars(rest.as_slice(), nl.as_slice()) {
            None => {
                out.push(rest);
                assert(out@.map_values(|l: Vec<char>| l@) =~= before.push(s@.skip(start as int)));
                assert(s@.skip(n as int) =~= Seq::<char>::empty());
                assert(spec_lines(s@.skip(start as int)) == seq![s@.skip(start as int)]);
                assert(out@.map_values(|l: Vec<char>| l@) + spec_lines(s@.skip(n as int)) =~= spec_lines(s@));
                start = n;
            },
            Some(k) => {
                let mut line = crate::text::sub_chars(rest.as_slice(), 0, k);
                assert(line@ =~= rest@.take(k as int));
                if line.len() > 0 && line[line.len() - 1] == '\r' {
                    line.pop();
                    assert(line@ =~= rest@.take(k as int).drop_last());
                }
                out.push(line);
                assert(rest@.skip(k + 1) =~= s@.skip(start + k + 1));
                assert(out@.map_values(|l: Vec<char>| l@) =~= before.push(strip_cr(rest@.take(k as int))));
                assert(out@.map_values(|l: Vec<char>| l@) + spec_lines(s@.skip(start + k + 1)) =~= before + spec_lines(
                    s@.skip(start as int),
                ));
                start = start + k + 1;
            },
        }
    }
    assert(s@.skip(n as int) =~= Seq::<char>::empty());
    assert(out@.map_values(|l: Vec<char>| l@) + spec_lines(s@.skip(n as int)) =~= out@.map_values(|l: Vec<char>| l@));
    out
}

} // verus!

verus! {

/// The parser's state between lines: finished releases, and the one being
/// read.
#[verifier::ext_equal]
pub struct ParseState {
    pub done: Seq<ReleaseModel>,
    pub current: Option<ReleaseModel>,
}

/// The section a line of content is added to, opening an unnamed one when
/// the release has none yet.
pub open spec fn sections_for_content(secs: Seq<SectionModel>) -> Seq<SectionModel> {
    if secs.len() == 0 {
        seq![SectionModel { heading: Seq::empty(), items: Seq::empty() }]
    } else {
        secs
    }
}

/// A section after one line of content: a `- ` bullet starts an item; other
/// text continues the last item (joined by a space) or, with no item yet,
/// starts one.
pub open spec fn add_content(sec: SectionModel, line: Seq<char>) -> SectionModel {
    if starts_with(line, seq!['-', ' ']) {
        SectionModel { items: sec.items.push(spec_parse_item(line.skip(2))), ..sec }
    } else if sec.items.len() > 0 {
        let last = sec.items.last();
        SectionModel {
            items: sec.items.drop_last().push(ItemModel { body: last.body + seq![' '] + trim(line), ..last }),
            ..sec
        }
    } else {
        SectionModel { items: sec.items.push(spec_parse_item(line)), ..sec }
    }
}

/// The parser's state after one line.
pub open spec fn parse_step(st: ParseState, line: Seq<char>) -> ParseState {
    if starts_with(line, seq!['#', '#', ' ']) {
        ParseState {
            done: match st.current {
                Some(r) => st.done.push(r),
                None => st.done,
            },
            current: match spec_parse_version_heading(line.skip(3)) {
                Some((v, d)) => Some(ReleaseModel { version: v, date: d, sections: Seq::empty() }),
                None => None,
            },
        }
    } else {
        match st.current {
            None => st,
            Some(r) => if starts_with(line, seq!['#', '#', '#', ' ']) {
                ParseState {
                    current: Some(
                        ReleaseModel {
                            sections: r.sections.push(SectionModel { heading: trim(line.skip(4)), items: Seq::empty() }),
                            ..r
                        },
                    ),
                    ..st
                }
            } else if is_blank(line) {
                st
            } else {
                let secs = sections_for_content(r.sections);
                ParseState {
                    current: Some(
                        ReleaseModel { sections: secs.drop_last().push(add_content(secs.last(), line)), ..r },
                    ),
                    ..st
                }
            },
        }
    }
}

/// The parser's state after a sequence of lines.
pub open spec fn parse_run(st: ParseState, lines: Seq<Seq<char>>) -> ParseState
    decreases lines.len(),
{
    if lines.len() == 0 {
        st
    } else {
        parse_step(parse_run(st, lines.drop_last()), lines.last())
    }
}

/// Every release in `source`, in file order.
pub open spec fn spec_parse(source: Seq<char>) -> Seq<ReleaseModel> {
    let fin = parse_run(ParseState { done: Seq::empty(), current: None }, spec_lines(source));
    match fin.current {
        Some(r) => fin.done.push(r),
        None => fin.done,
    }
}

/// An optional release by its text.
pub open spec fn opt_release_view(o: Option<ReleaseNotes>) -> Option<ReleaseModel> {
    match o {
        Some(r) => Some(r@),
        None => None,
    }
}

fn item_from_chars(line: &[char], skip: usize) -> (r: NotesItem)
    requires
        skip <= line@.len(),
    ensures
        r@ == spec_parse_item(line@.skip(skip as int)),
{
    let rest = crate::text::sub_chars(line, skip, line.len());
    assert(rest@ =~= line@.skip(skip as int));
    parse_item_chars(rest.as_slice())
}

fn add_content_exec(sec: NotesSection, line: &[char]) -> (r: NotesSection)
    ensures
        r@ == add_content(sec@, line@),
{
    let mut sec = sec;
    let bullet = vec!['-', ' '];
    assert(bullet@ =~= seq!['-', ' ']);
    let ghost before = sec@;
    if chars_start_with(line, bullet.as_slice()) {
        let item = item_from_chars(line, 2);
        sec.items.push(item);
        assert(sec@ =~~= add_content(before, line@));
    } else if sec.items.len() > 0 {
        let mut last = sec.items.pop().unwrap();
        let t = trim_chars(line);
        let ts = chars_to_string(t.as_slice());
        proof {
            reveal_strlit(" ");
        }
        last.body.append(" ");
        last.body.append(ts.as_str());
        sec.items.push(last);
        assert(sec@ =~~= add_content(before, line@));
    } else {
        let item = item_from_chars(line, 0);
        assert(line@.skip(0) =~= line@);
        sec.items.push(item);
        assert(sec@ =~~= add_content(before, line@));
    }
    sec
}

fn parse_step_exec(done: &mut Vec<ReleaseNotes>, current: &mut Option<ReleaseNotes>, line: &[char])
    ensures
        (ParseState { done: releases_view(final(done)@), current: opt_release_view(*final(current)) }) == parse_step(
            ParseState { done: releases_view(old(done)@), current: opt_release_view(*old(current)) },
            line@,
        ),
{
    let ghost st = ParseState { done: releases_view(done@), current: opt_release_view(*current) };
    let h2 = vec!['#', '#', ' '];
    let h3 = vec!['#', '#', '#', ' '];
    assert(h2@ =~= seq!['#', '#', ' ']);
    assert(h3@ =~= seq!['#', '#', '#', ' ']);
    if chars_start_with(line, h2.as_slice()) {
        if let Some(r) = current.take() {
            done.push(r);
        }
        let rest = crate::text::sub_chars(line, 3, line.len());
        assert(rest@ =~= line@.skip(3));
        *current = match parse_version_heading_chars(rest.as_slice()) {
            Some((v, d)) => Some(ReleaseNotes { version: v, date: d, sections: Vec::new() }),
            None => None,
        };
        assert(releases_view(done@) =~= parse_step(st, line@).done);
        assert(opt_release_view(*current) =~~= parse_step(st, line@).current);
        return;
    }
    let mut r = match current.take() {
        None => {
            return;
        },
        Some(r) => r,
    };
    let ghost rv = r@;
    if chars_start_with(line, h3.as_slice()) {
        let rest = crate::text::sub_chars(line, 4, line.len());
        assert(rest@ =~= line@.skip(4));
        let t = trim_chars(rest.as_slice());
        r.sections.push(NotesSection { heading: chars_to_string(t.as_slice()), items: Vec::new() });
        *current = Some(r);
        assert(opt_release_view(*current) =~~= parse_step(st, line@).current);
        return;
    }
    if chars_are_blank(line) {
        *current = Some(r);
        return;
    }
    if r.sections.len() == 0 {
        r.sections.push(NotesSection { heading: String::new(), items: Vec::new() });
    }
    assert(sections_view(r.sections@) =~~= sections_for_content(rv.sections));
    let sec = r.sections.pop().unwrap();
    let sec = add_content_exec(sec, line);
    r.sections.push(sec);
    *current = Some(r);
    assert(opt_release_view(*current) =~~= parse_step(st, line@).current);
}

/// Parse every release heading and its notes out of `source`, in file order.
pub fn parse(source: &str) -> (r: Vec<ReleaseNotes>)
    ensures
        releases_view(r@) == spec_parse(source@),
        releases_view(r@).map_values(|m: ReleaseModel| m.version) == heading_versions(spec_lines(source@)),
        forall|i: int| 0 <= i < r@.len() ==> is_version(#[trigger] releases_view(r@)[i].version),
{
    proof {
        lemma_one_release_per_version_heading(source@);
        lemma_parsed_releases_are_versions(source@);
    }
    let chars = crate::text::str_chars(source);
    let lines = split_lines(chars.as_slice());
    let ghost ls = lines@.map_values(|l: Vec<char>| l@);
    let mut done: Vec<ReleaseNotes> = Vec::new();
    let mut current: Option<ReleaseNotes> = None;
    let mut i: usize = 0;
    assert(ls.take(0) =~= Seq::<Seq<char>>::empty());
    assert(releases_view(done@) =~= Seq::<ReleaseModel>::empty());
    while i < lines.len()
        invariant
            i <= lines@.len(),
            ls == lines@.map_values(|l: Vec<char>| l@),
            (ParseState { done: releases_view(done@), current: opt_release_view(current) }) == parse_run(
                ParseState { done: Seq::empty(), current: None },
                ls.take(i as int),
            ),
        decreases lines@.len() - i,
    {
        parse_step_exec(&mut done, &mut current, lines[i].as_slice());
        assert(ls.take(i + 1).drop_last() =~= ls.take(i as int));
        assert(ls.take(i + 1).last() == lines@[i as int]@);
        i = i + 1;
    }
    assert(ls.take(lines@.len() as int) =~= ls);
    let ghost before = releases_view(done@);
    if let Some(r) = current {
        done.push(r);
        assert(releases_view(done@) =~= before.push(r@));
    }
    done
}

/// Parse the releases of a changelog and keep the notes for `version`.
pub fn release_from(source: &str, version: &str) -> (r: Option<ReleaseNotes>)
    ensures
        match r {
            Some(n) => n@.version == version@ && exists|i: int|
                0 <= i < spec_parse(source@).len() && spec_parse(source@)[i] == n@
                    && forall|j: int| 0 <= j < i ==> spec_parse(source@)[j].version != version@,
            None => forall|i: int| 0 <= i < spec_parse(source@).len() ==> spec_parse(source@)[i].version != version@,
        },
{
    let mut all = parse(source);
    let mut i: usize = 0;
    while i < all.len()
        invariant
            i <= all@.len(),
            releases_view(all@) == spec_parse(source@),
            forall|j: int| 0 <= j < i ==> spec_parse(source@)[j].version != version@,
        decreases all@.len() - i,
    {
        if crate::text::str_eq(all[i].version.as_str(), version) {
            assert(releases_view(all@)[i as int] == all@[i as int]@);
            let n = all.remove(i);
            return Some(n);
        }
        assert(releases_view(all@)[i as int] == all@[i as int]@);
        i = i + 1;
    }
    None
}

/// The notes to show on a launch of `version`, given the version whose notes
/// were last seen: none when this version's notes were already seen, else the
/// changelog's entry for it, if it has one.
pub fn whats_new_from(source: &str, version: &str, seen: Option<&str>) -> (r: Option<ReleaseNotes>)
    ensures
        (seen matches Some(s) && s@ == version@) ==> r is None,
        !(seen matches Some(s) && s@ == version@) ==> match r {
            Some(n) => n@.version == version@ && exists|i: int|
                0 <= i < spec_parse(source@).len() && spec_parse(source@)[i] == n@
                    && forall|j: int| 0 <= j < i ==> spec_parse(source@)[j].version != version@,
            None => forall|i: int| 0 <= i < spec_parse(source@).len() ==> spec_parse(source@)[i].version != version@,
        },
{
    if let Some(s) = seen {
        if crate::text::str_eq(s, version) {
            return None;
        }
    }
    release_from(source, version)
}

} // verus!

verus! {

/// A release version as the parser accepts it: non-empty, starting with a
/// digit.
pub open spec fn is_version(v: Seq<char>) -> bool {
    v.len() > 0 && is_digit(v[0])
}

/// Every release the parser has read has a version starting with a digit.
pub open spec fn state_versions_ok(st: ParseState) -> bool {
    &&& forall|i: int| 0 <= i < st.done.len() ==> is_version(#[trigger] st.done[i].version)
    &&& st.current matches Some(r) ==> is_version(r.version)
}

proof fn lemma_run_versions_ok(lines: Seq<Seq<char>>)
    ensures
        state_versions_ok(parse_run(ParseState { done: Seq::empty(), current: None }, lines)),
    decreases lines.len(),
{
    if lines.len() > 0 {
        lemma_run_versions_ok(lines.drop_last());
        let st = parse_run(ParseState { done: Seq::empty(), current: None }, lines.drop_last());
        let next = parse_step(st, lines.last());
        assert forall|i: int| 0 <= i < next.done.len() implies is_version(#[trigger] next.done[i].version) by {
            if i < st.done.len() {
                assert(next.done[i] == st.done[i]);
            }
        }
    }
}

/// Unreleased work is never shown as a release: every parsed release's
/// version starts with a digit, so `[Unreleased]` and other non-version
/// headings never produce one.
pub proof fn lemma_parsed_releases_are_versions(source: Seq<char>)
    ensures
        forall|i: int| 0 <= i < spec_parse(source).len() ==> is_version(#[trigger] spec_parse(source)[i].version),
{
    let lines = spec_lines(source);
    lemma_run_versions_ok(lines);
    let fin = parse_run(ParseState { done: Seq::empty(), current: None }, lines);
    assert forall|i: int| 0 <= i < spec_parse(source).len() implies is_version(#[trigger] spec_parse(source)[i].version) by {
        if i < fin.done.len() {
            assert(spec_parse(source)[i] == fin.done[i]);
        }
    }
}

/// The versions named by the version headings among `lines`, in order: a
/// line `## ` followed by `[`, a version starting with a digit, and `]`.
pub open spec fn heading_versions(lines: Seq<Seq<char>>) -> Seq<Seq<char>>
    decreases lines.len(),
{
    if lines.len() == 0 {
        Seq::empty()
    } else {
        let prev = heading_versions(lines.drop_last());
        let l = lines.last();
        if starts_with(l, seq!['#', '#', ' ']) {
            match spec_parse_version_heading(l.skip(3)) {
                Some((v, _)) => prev.push(v),
                None => prev,
            }
        } else {
            prev
        }
    }
}

/// The versions of the releases a parser state holds, finished ones first.
pub open spec fn state_versions(st: ParseState) -> Seq<Seq<char>> {
    let done = st.done.map_values(|r: ReleaseModel| r.version);
    match st.current {
        Some(r) => done.push(r.version),
        None => done,
    }
}

proof fn lemma_run_heading_versions(lines: Seq<Seq<char>>)
    ensures
        state_versions(parse_run(ParseState { done: Seq::empty(), current: None }, lines)) == heading_versions(lines),
    decreases lines.len(),
{
    let init = ParseState { done: Seq::empty(), current: None };
    if lines.len() == 0 {
        assert(state_versions(init) =~= Seq::<Seq<char>>::empty());
    } else {
        lemma_run_heading_versions(lines.drop_last());
        let st = parse_run(init, lines.drop_last());
        let l = lines.last();
        let next = parse_step(st, l);
        assert(next == parse_run(init, lines));
        let dv = st.done.map_values(|r: ReleaseModel| r.version);
        if starts_with(l, seq!['#', '#', ' ']) {
            let nd = next.done.map_values(|r: ReleaseModel| r.version);
            assert(nd =~= state_versions(st));
        } else {
            assert(next.done == st.done);
            assert(state_versions(next) =~= state_versions(st));
        }
    }
}

/// One release per version heading, in file order: the versions of the
/// parsed releases are exactly the versions the version headings name, in
/// the order of their lines. Text before the first heading, and under a
/// heading that names no version (such as `[Unreleased]`), makes no release.
pub proof fn lemma_one_release_per_version_heading(source: Seq<char>)
    ensures
        spec_parse(source).map_values(|r: ReleaseModel| r.version) == heading_versions(spec_lines(source)),
{
    let lines = spec_lines(source);
    lemma_run_heading_versions(lines);
    let fin = parse_run(ParseState { done: Seq::empty(), current: None }, lines);
    assert(spec_parse(source).map_values(|r: ReleaseModel| r.version) =~= state_versions(fin));
}

/// Content before any section heading: a non-blank line under a version
/// heading, while the release has no section yet, opens a section with an
/// empty heading and goes into it as its first item.
pub proof fn lemma_content_before_a_section_goes_to_an_unnamed_one(st: ParseState, line: Seq<char>)
    requires
        st.current matches Some(r) && r.sections.len() == 0,
        !starts_with(line, seq!['#', '#', ' ']),
        !starts_with(line, seq!['#', '#', '#', ' ']),
        !is_blank(line),
    ensures
        parse_step(st, line).done == st.done,
        parse_step(st, line).current matches Some(n) && n.version == st.current->0.version && n.sections.len() == 1
            && n.sections[0].heading == Seq::<char>::empty() && n.sections[0].items.len() == 1,
{
    let r = st.current->0;
    let secs = sections_for_content(r.sections);
    assert(secs.len() == 1);
    assert(secs.drop_last().push(add_content(secs.last(), line)).len() == 1);
}

/// A bullet goes to the section opened last: in a release with sections, a
/// `- ` line leaves every section but the last as it was, keeps the last
/// one's heading, and adds the bullet's item after its items; the release's
/// version, date and the finished releases stay as they were.
pub proof fn lemma_bullet_goes_to_the_latest_section(st: ParseState, line: Seq<char>)
    requires
        st.current matches Some(r) && r.sections.len() > 0,
        starts_with(line, seq!['-', ' ']),
    ensures
        ({
            let r = st.current->0;
            let n = parse_step(st, line);
            &&& n.done == st.done
            &&& n.current matches Some(nr) && {
                &&& nr.version == r.version
                &&& nr.date == r.date
                &&& nr.sections.len() == r.sections.len()
                &&& forall|j: int| 0 <= j < r.sections.len() - 1 ==> #[trigger] nr.sections[j] == r.sections[j]
                &&& nr.sections.last().heading == r.sections.last().heading
                &&& nr.sections.last().items == r.sections.last().items.push(spec_parse_item(line.skip(2)))
            }
        }),
{
    assert(line.take(2)[0] == line[0]);
    assert(line[0] == '-');
    assert(!starts_with(line, seq!['#', '#', ' '])) by {
        if starts_with(line, seq!['#', '#', ' ']) {
            assert(line.take(3)[0] == line[0]);
        }
    }
    assert(!starts_with(line, seq!['#', '#', '#', ' '])) by {
        if starts_with(line, seq!['#', '#', '#', ' ']) {
            assert(line.take(4)[0] == line[0]);
        }
    }
    assert(!crate::text::is_ws(line[0]));
    assert(!is_blank(line));
}

/// A `### ` heading under a release opens a new, empty section after the
/// existing ones, named by the heading's trimmed text, and changes nothing
/// else.
pub proof fn lemma_section_heading_opens_a_section(st: ParseState, line: Seq<char>)
    requires
        st.current is Some,
        starts_with(line, seq!['#', '#', '#', ' ']),
    ensures
        ({
            let r = st.current->0;
            let n = parse_step(st, line);
            &&& n.done == st.done
            &&& n.current matches Some(nr) && {
                &&& nr.version == r.version
                &&& nr.date == r.date
                &&& nr.sections == r.sections.push(SectionModel { heading: trim(line.skip(4)), items: Seq::empty() })
            }
        }),
{
    assert(line.take(4)[2] == line[2]);
    assert(!starts_with(line, seq!['#', '#', ' '])) by {
        if starts_with(line, seq!['#', '#', ' ']) {
            assert(line.take(3)[2] == line[2]);
        }
    }
}

} // verus!
