use vstd::prelude::*;
use crate::helpers::{dir_name, dir_name_spec, escape_shell_arg, escape_spec};
use crate::projects::{Project, ProjectSetup, ProjectSetupView, ProjectView};
use crate::strutil::{
    dec_digits, is_numeral, lines_spec, numeral_part, numeral_val, parse_usize, push_char, seq_lt,
    split_lines, split_spec, split_str, str_eq, str_lt, usize_to_string,
};
use crate::templates::{Window, WindowView};

verus! {

// ---------------------------------------------------------------------------
// The flat record protocol of a live session
// ---------------------------------------------------------------------------

/// Why one protocol line was rejected.
#[derive(Debug, Clone)]
pub enum TmuxParseError {
    NoPrefix,
    UndefinedPrefix(String),
    MissingData(usize),
    NoNumber(String),
}

/// The mathematical shape of a parse error.
#[verifier::ext_equal]
pub enum ParseErrorView {
    NoPrefix,
    UndefinedPrefix(Seq<char>),
    MissingData(usize),
    NoNumber(Seq<char>),
}

impl DeepView for TmuxParseError {
    type V = ParseErrorView;

    open spec fn deep_view(&self) -> ParseErrorView {
        match self {
            TmuxParseError::NoPrefix => ParseErrorView::NoPrefix,
            TmuxParseError::UndefinedPrefix(p) => ParseErrorView::UndefinedPrefix(p@),
            TmuxParseError::MissingData(i) => ParseErrorView::MissingData(*i),
            TmuxParseError::NoNumber(s) => ParseErrorView::NoNumber(s@),
        }
    }
}

/// One record reported by the live multiplexer: either a window with its
/// name, layout, index and owning session, or a pane with its window index,
/// working directory and owning session.
#[derive(Debug, Clone)]
pub enum ActiveTmuxInstance {
    Window { name: String, layout: String, index: usize, session_name: String },
    Pane { window_index: usize, cwd: String, session_name: String },
}

/// The mathematical shape of a live record.
#[verifier::ext_equal]
pub enum ActiveInstanceView {
    Window { name: Seq<char>, layout: Seq<char>, index: usize, session_name: Seq<char> },
    Pane { window_index: usize, cwd: Seq<char>, session_name: Seq<char> },
}

impl DeepView for ActiveTmuxInstance {
    type V = ActiveInstanceView;

    open spec fn deep_view(&self) -> ActiveInstanceView {
        match self {
            ActiveTmuxInstance::Window { name, layout, index, session_name } =>
                ActiveInstanceView::Window {
                    name: name@,
                    layout: layout@,
                    index: *index,
                    session_name: session_name@,
                },
            ActiveTmuxInstance::Pane { window_index, cwd, session_name } =>
                ActiveInstanceView::Pane {
                    window_index: *window_index,
                    cwd: cwd@,
                    session_name: session_name@,
                },
        }
    }
}

/// A field holds a window or pane index when it is a decimal numeral, with
/// at most one leading plus sign, whose value fits the machine.
pub open spec fn index_field_ok(f: Seq<char>) -> bool {
    is_numeral(numeral_part(f)) && numeral_val(numeral_part(f)) <= usize::MAX
}

pub open spec fn index_field_val(f: Seq<char>) -> usize {
    numeral_val(numeral_part(f)) as usize
}

/// What parsing one tab-separated protocol line yields.  The first field is
/// the record tag; a window line then carries name, layout, index and
/// session, a pane line carries window index, working directory and session.
/// A wrong tag, a missing field or a bad index field rejects the line.
pub open spec fn parse_line_spec(s: Seq<char>) -> Result<ActiveInstanceView, ParseErrorView> {
    let fields = split_spec(s, '\t');
    let tag = fields[0];
    if tag == "window:"@ {
        if fields.len() < 2 {
            Err(ParseErrorView::MissingData(0))
        } else if fields.len() < 3 {
            Err(ParseErrorView::MissingData(1))
        } else if fields.len() < 4 {
            Err(ParseErrorView::MissingData(2))
        } else if !index_field_ok(fields[3]) {
            Err(ParseErrorView::NoNumber(fields[3]))
        } else if fields.len() < 5 {
            Err(ParseErrorView::MissingData(3))
        } else {
            Ok(
                ActiveInstanceView::Window {
                    name: fields[1],
                    layout: fields[2],
                    index: index_field_val(fields[3]),
                    session_name: fields[4],
                },
            )
        }
    } else if tag == "pane:"@ {
        if fields.len() < 2 {
            Err(ParseErrorView::MissingData(0))
        } else if !index_field_ok(fields[1]) {
            Err(ParseErrorView::NoNumber(fields[1]))
        } else if fields.len() < 3 {
            Err(ParseErrorView::MissingData(2))
        } else if fields.len() < 4 {
            Err(ParseErrorView::MissingData(3))
        } else {
            Ok(
                ActiveInstanceView::Pane {
                    window_index: index_field_val(fields[1]),
                    cwd: fields[2],
                    session_name: fields[3],
                },
            )
        }
    } else {
        Err(ParseErrorView::UndefinedPrefix(tag))
    }
}

/// Parses one tab-separated protocol line into a live record.
pub fn parse_line(line: &str) -> (r: Result<ActiveTmuxInstance, TmuxParseError>)
    ensures
        match r {
            Ok(inst) => parse_line_spec(line@) == Ok::<ActiveInstanceView, ParseErrorView>(
                inst.deep_view(),
            ),
            Err(e) => parse_line_spec(line@) == Err::<ActiveInstanceView, ParseErrorView>(
                e.deep_view(),
            ),
        },
{
    let fields = split_str(line, '\t');
    proof {
        assert(fields.deep_view().len() == fields.len());
        assert(fields.deep_view()[0] == fields@[0]@);
    }
    let tag = &fields[0];
    if str_eq(tag.as_str(), "window:") {
        if fields.len() < 2 {
            return Err(TmuxParseError::MissingData(0));
        }
        if fields.len() < 3 {
            return Err(TmuxParseError::MissingData(1));
        }
        if fields.len() < 4 {
            return Err(TmuxParseError::MissingData(2));
        }
        proof {
            assert(fields.deep_view()[3] == fields@[3]@);
        }
        let index = match parse_usize(fields[3].as_str()) {
            Some(v) => v,
            None => {
                return Err(TmuxParseError::NoNumber(fields[3].clone()));
            },
        };
        if fields.len() < 5 {
            return Err(TmuxParseError::MissingData(3));
        }
        proof {
            assert(fields.deep_view()[1] == fields@[1]@);
            assert(fields.deep_view()[2] == fields@[2]@);
            assert(fields.deep_view()[4] == fields@[4]@);
        }
        Ok(
            ActiveTmuxInstance::Window {
                name: fields[1].clone(),
                layout: fields[2].clone(),
                index,
                session_name: fields[4].clone(),
            },
        )
    } else if str_eq(tag.as_str(), "pane:") {
        if fields.len() < 2 {
            return Err(TmuxParseError::MissingData(0));
        }
        proof {
            assert(fields.deep_view()[1] == fields@[1]@);
        }
        let window_index = match parse_usize(fields[1].as_str()) {
            Some(v) => v,
            None => {
                return Err(TmuxParseError::NoNumber(fields[1].clone()));
            },
        };
        if fields.len() < 3 {
            return Err(TmuxParseError::MissingData(2));
        }
        if fields.len() < 4 {
            return Err(TmuxParseError::MissingData(3));
        }
        proof {
            assert(fields.deep_view()[2] == fields@[2]@);
            assert(fields.deep_view()[3] == fields@[3]@);
        }
        Ok(
            ActiveTmuxInstance::Pane {
                window_index,
                cwd: fields[2].clone(),
                session_name: fields[3].clone(),
            },
        )
    } else {
        Err(TmuxParseError::UndefinedPrefix(tag.clone()))
    }
}

// ---------------------------------------------------------------------------
// Reconstructed windows, ordered by (index, session)
// ---------------------------------------------------------------------------

/// One window reconstructed from the live records: its reported index and
/// owning session form the grouping key; the panes list collects the working
/// directories of its panes in the order their records arrive.
#[derive(Debug, Clone)]
pub struct ActiveWindow {
    pub index: usize,
    pub session_name: String,
    pub name: String,
    pub layout: String,
    pub panes: Vec<String>,
}

/// The mathematical shape of a reconstructed window.
#[verifier::ext_equal]
pub struct ActiveWindowView {
    pub index: usize,
    pub session_name: Seq<char>,
    pub name: Seq<char>,
    pub layout: Seq<char>,
    pub panes: Seq<Seq<char>>,
}

impl DeepView for ActiveWindow {
    type V = ActiveWindowView;

    open spec fn deep_view(&self) -> ActiveWindowView {
        ActiveWindowView {
            index: self.index,
            session_name: self.session_name@,
            name: self.name@,
            layout: self.layout@,
            panes: self.panes.deep_view(),
        }
    }
}

/// Whether an entry carries the given grouping key.
pub open spec fn same_key(e: ActiveWindowView, index: usize, session: Seq<char>) -> bool {
    e.index == index && e.session_name == session
}

/// Whether the key (index, session) orders strictly before the entry's key:
/// numerically by window index, then lexicographically by session name.
pub open spec fn key_lt(index: usize, session: Seq<char>, e: ActiveWindowView) -> bool {
    index < e.index || (index == e.index && seq_lt(session, e.session_name))
}

/// The position of the entry with the given key, or -1 when there is none.
pub open spec fn find_entry(m: Seq<ActiveWindowView>, index: usize, session: Seq<char>) -> int
    decreases m.len(),
{
    if m.len() == 0 {
        -1
    } else if same_key(m[0], index, session) {
        0
    } else {
        let r = find_entry(m.drop_first(), index, session);
        if r < 0 {
            -1
        } else {
            r + 1
        }
    }
}

/// Inserting an entry before the first entry whose key orders after it.
pub open spec fn insert_sorted(m: Seq<ActiveWindowView>, w: ActiveWindowView) -> Seq<
    ActiveWindowView,
>
    decreases m.len(),
{
    if m.len() == 0 {
        seq![w]
    } else if key_lt(w.index, w.session_name, m[0]) {
        seq![w] + m
    } else {
        seq![m[0]] + insert_sorted(m.drop_first(), w)
    }
}

/// How one live record changes the ordered window map: a window record opens
/// a new entry under its key unless one exists; a pane record appends its
/// working directory to the entry with its key, and is dropped when no
/// window record has opened that entry.
pub open spec fn agg_step(m: Seq<ActiveWindowView>, inst: ActiveInstanceView) -> Seq<
    ActiveWindowView,
> {
    match inst {
        ActiveInstanceView::Window { name, layout, index, session_name } => {
            if find_entry(m, index, session_name) >= 0 {
                m
            } else {
                insert_sorted(
                    m,
                    ActiveWindowView {
                        index,
                        session_name,
                        name,
                        layout,
                        panes: Seq::<Seq<char>>::empty(),
                    },
                )
            }
        },
        ActiveInstanceView::Pane { window_index, cwd, session_name } => {
            let k = find_entry(m, window_index, session_name);
            if k < 0 {
                m
            } else {
                m.update(k, ActiveWindowView { panes: m[k].panes.push(cwd), ..m[k] })
            }
        },
    }
}

/// The window map after all records, in arrival order, have been applied.
pub open spec fn agg_windows(insts: Seq<ActiveInstanceView>) -> Seq<ActiveWindowView>
    decreases insts.len(),
{
    if insts.len() == 0 {
        Seq::<ActiveWindowView>::empty()
    } else {
        agg_step(agg_windows(insts.drop_last()), insts.last())
    }
}

proof fn lemma_find_entry_at(m: Seq<ActiveWindowView>, index: usize, session: Seq<char>, i: int)
    requires
        0 <= i <= m.len(),
        forall|j: int| 0 <= j < i ==> !same_key(#[trigger] m[j], index, session),
        i < m.len() ==> same_key(m[i], index, session),
    ensures
        find_entry(m, index, session) == if i == m.len() {
            -1int
        } else {
            i
        },
    decreases m.len(),
{
    if m.len() == 0 {
    } else if i == 0 {
        if m.len() > 0 && i < m.len() {
        } else {
        }
    } else {
        assert(!same_key(m[0], index, session));
        let t = m.drop_first();
        assert forall|j: int| 0 <= j < i - 1 implies !same_key(#[trigger] t[j], index, session) by {
            assert(t[j] == m[j + 1]);
        }
        if i - 1 < t.len() {
            assert(t[i - 1] == m[i]);
        }
        lemma_find_entry_at(t, index, session, i - 1);
    }
}

proof fn lemma_insert_sorted_at(m: Seq<ActiveWindowView>, w: ActiveWindowView, p: int)
    requires
        0 <= p <= m.len(),
        forall|j: int| 0 <= j < p ==> !key_lt(w.index, w.session_name, #[trigger] m[j]),
        p < m.len() ==> key_lt(w.index, w.session_name, m[p]),
    ensures
        insert_sorted(m, w) == m.insert(p, w),
    decreases m.len(),
{
    if m.len() == 0 {
        assert(insert_sorted(m, w) =~= m.insert(0, w));
    } else if p == 0 {
        assert(insert_sorted(m, w) =~= m.insert(0, w));
    } else {
        assert(!key_lt(w.index, w.session_name, m[0]));
        let t = m.drop_first();
        assert forall|j: int| 0 <= j < p - 1 implies !key_lt(
            w.index,
            w.session_name,
            #[trigger] t[j],
        ) by {
            assert(t[j] == m[j + 1]);
        }
        if p - 1 < t.len() {
            assert(t[p - 1] == m[p]);
        }
        lemma_insert_sorted_at(t, w, p - 1);
        assert(seq![m[0]] + t.insert(p - 1, w) =~= m.insert(p, w));
    }
}

/// The position of the entry with the given key, if one exists.
fn find_entry_pos(entries: &Vec<ActiveWindow>, index: usize, session: &str) -> (r: Option<usize>)
    ensures
        match r {
            Some(k) => k < entries.len() && find_entry(entries.deep_view(), index, session@)
                == k as int,
            None => find_entry(entries.deep_view(), index, session@) == -1,
        },
{
    let ghost m = entries.deep_view();
    proof {
        assert(m.len() == entries.len());
    }
    let mut k: usize = 0;
    while k < entries.len()
        invariant
            k <= entries.len(),
            m == entries.deep_view(),
            m.len() == entries.len(),
            forall|j: int| 0 <= j < k ==> !same_key(#[trigger] m[j], index, session@),
        decreases entries.len() - k,
    {
        let e = &entries[k];
        proof {
            assert(e.deep_view() == m[k as int]);
        }
        if e.index == index && str_eq(e.session_name.as_str(), session) {
            proof {
                lemma_find_entry_at(m, index, session@, k as int);
            }
            return Some(k);
        }
        k = k + 1;
    }
    proof {
        lemma_find_entry_at(m, index, session@, m.len() as int);
    }
    None
}

/// Applies one parsed record to the entry list.
fn apply_instance(entries: &mut Vec<ActiveWindow>, inst: ActiveTmuxInstance)
    ensures
        final(entries).deep_view() == agg_step(old(entries).deep_view(), inst.deep_view()),
{
    let ghost m = entries.deep_view();
    proof {
        assert(m.len() == entries.len());
    }
    match inst {
        ActiveTmuxInstance::Window { name, layout, index, session_name } => {
            match find_entry_pos(entries, index, session_name.as_str()) {
                Some(_) => {},
                None => {
                    let w = ActiveWindow {
                        index,
                        session_name,
                        name,
                        layout,
                        panes: Vec::new(),
                    };
                    let ghost wv = w.deep_view();
                    proof {
                        assert(wv.panes =~= Seq::<Seq<char>>::empty());
                    }
                    let mut p: usize = 0;
                    while p < entries.len()
                        invariant_except_break
                            p <= entries.len(),
                            m == entries.deep_view(),
                            m.len() == entries.len(),
                            wv == w.deep_view(),
                            forall|j: int|
                                0 <= j < p ==> !key_lt(wv.index, wv.session_name, #[trigger] m[j]),
                        ensures
                            p <= entries.len(),
                            m == entries.deep_view(),
                            m.len() == entries.len(),
                            wv == w.deep_view(),
                            forall|j: int|
                                0 <= j < p ==> !key_lt(wv.index, wv.session_name, #[trigger] m[j]),
                            p < entries.len() ==> key_lt(wv.index, wv.session_name, m[p as int]),
                        decreases entries.len() - p,
                    {
                        let e = &entries[p];
                        proof {
                            assert(e.deep_view() == m[p as int]);
                        }
                        let lt = if w.index < e.index {
                            true
                        } else if w.index == e.index {
                            str_lt(w.session_name.as_str(), e.session_name.as_str())
                        } else {
                            false
                        };
                        proof {
                            assert(lt == key_lt(wv.index, wv.session_name, m[p as int]));
                        }
                        if lt {
                            break;
                        }
                        p = p + 1;
                    }
                    proof {
                        lemma_insert_sorted_at(m, wv, p as int);
                    }
                    entries.insert(p, w);
                    proof {
                        assert(entries.deep_view() =~~= insert_sorted(m, wv));
                    }
                },
            }
        },
        ActiveTmuxInstance::Pane { window_index, cwd, session_name } => {
            match find_entry_pos(entries, window_index, session_name.as_str()) {
                Some(k) => {
                    let mut e = entries.remove(k);
                    let ghost ev = e.deep_view();
                    e.panes.push(cwd);
                    proof {
                        assert(e.panes.deep_view() =~~= ev.panes.push(cwd@));
                    }
                    entries.insert(k, e);
                    proof {
                        assert(entries.deep_view() =~~= m.update(
                            k as int,
                            ActiveWindowView { panes: m[k as int].panes.push(cwd@), ..m[
                                k as int] },
                        ));
                    }
                },
                None => {},
            }
        },
    }
}

// ---------------------------------------------------------------------------
// The whole snapshot pipeline
// ---------------------------------------------------------------------------

/// Every line of the raw output, parsed.
pub open spec fn parsed_records(s: Seq<char>) -> Seq<Result<ActiveInstanceView, ParseErrorView>> {
    lines_spec(s).map_values(|l: Seq<char>| parse_line_spec(l))
}

/// The records of the lines that parsed, in order; rejected lines are dropped.
pub open spec fn ok_records(rs: Seq<Result<ActiveInstanceView, ParseErrorView>>) -> Seq<
    ActiveInstanceView,
>
    decreases rs.len(),
{
    if rs.len() == 0 {
        Seq::<ActiveInstanceView>::empty()
    } else {
        ok_records(rs.drop_last()) + match rs.last() {
            Ok(i) => seq![i],
            Err(_) => Seq::<ActiveInstanceView>::empty(),
        }
    }
}

/// The errors of the lines that did not parse, in order.
pub open spec fn err_records(rs: Seq<Result<ActiveInstanceView, ParseErrorView>>) -> Seq<
    ParseErrorView,
>
    decreases rs.len(),
{
    if rs.len() == 0 {
        Seq::<ParseErrorView>::empty()
    } else {
        err_records(rs.drop_last()) + match rs.last() {
            Ok(_) => Seq::<ParseErrorView>::empty(),
            Err(e) => seq![e],
        }
    }
}

/// The windows that the raw query output describes, grouped by (index,
/// session) and ordered by that key.
pub open spec fn snapshot_windows(s: Seq<char>) -> Seq<ActiveWindowView> {
    agg_windows(ok_records(parsed_records(s)))
}

/// The per-line errors the raw output produced, in line order.
pub open spec fn snapshot_errors(s: Seq<char>) -> Seq<ParseErrorView> {
    err_records(parsed_records(s))
}

/// Rebuilds the window list of the live state from the raw query output.
/// Lines that do not parse are dropped; their errors are returned beside the
/// windows so that the caller can report them.
pub fn current_windows(output: &str) -> (r: (Vec<ActiveWindow>, Vec<TmuxParseError>))
    ensures
        r.0.deep_view() == snapshot_windows(output@),
        r.1.deep_view() == snapshot_errors(output@),
{
    let lines = split_lines(output);
    let ghost parsed = parsed_records(output@);
    proof {
        assert(lines.deep_view().len() == lines.len());
        assert(parsed.len() == lines.len());
    }
    let mut entries: Vec<ActiveWindow> = Vec::new();
    let mut errors: Vec<TmuxParseError> = Vec::new();
    let mut i: usize = 0;
    proof {
        assert(parsed.take(0) =~= Seq::<Result<ActiveInstanceView, ParseErrorView>>::empty());
        assert(entries.deep_view() =~= agg_windows(ok_records(parsed.take(0))));
        assert(errors.deep_view() =~= err_records(parsed.take(0)));
    }
    while i < lines.len()
        invariant
            i <= lines.len(),
            lines.deep_view() == lines_spec(output@),
            parsed == parsed_records(output@),
            parsed.len() == lines.len(),
            entries.deep_view() == agg_windows(ok_records(parsed.take(i as int))),
            errors.deep_view() == err_records(parsed.take(i as int)),
        decreases lines.len() - i,
    {
        proof {
            assert(lines.deep_view()[i as int] == lines@[i as int]@);
            assert(parsed[i as int] == parse_line_spec(lines.deep_view()[i as int]));
            assert(parsed.take(i + 1).drop_last() =~= parsed.take(i as int));
            assert(parsed.take(i + 1).last() == parsed[i as int]);
        }
        match parse_line(lines[i].as_str()) {
            Ok(inst) => {
                let ghost instv = inst.deep_view();
                let ghost oks = ok_records(parsed.take(i as int));
                proof {
                    assert(ok_records(parsed.take(i + 1)) =~= oks.push(instv));
                    assert(err_records(parsed.take(i + 1)) =~= err_records(
                        parsed.take(i as int),
                    ));
                    assert(oks.push(instv).drop_last() =~= oks);
                    assert(agg_windows(oks.push(instv)) == agg_step(agg_windows(oks), instv));
                }
                apply_instance(&mut entries, inst);
            },
            Err(e) => {
                let ghost ev = e.deep_view();
                let ghost errs = err_records(parsed.take(i as int));
                proof {
                    assert(err_records(parsed.take(i + 1)) =~= errs.push(ev));
                    assert(ok_records(parsed.take(i + 1)) =~= ok_records(parsed.take(i as int)));
                }
                errors.push(e);
                proof {
                    assert(errors.deep_view().len() == errors@.len());
                    assert(errors.deep_view() =~~= errs.push(ev));
                }
            },
        }
        i = i + 1;
    }
    proof {
        assert(parsed.take(lines.len() as int) =~= parsed);
    }
    (entries, errors)
}

// ---------------------------------------------------------------------------
// The root-directory heuristic
// ---------------------------------------------------------------------------

/// All pane working directories of all windows, in window order.
pub open spec fn all_pane_dirs(ws: Seq<ActiveWindowView>) -> Seq<Seq<char>>
    decreases ws.len(),
{
    if ws.len() == 0 {
        Seq::<Seq<char>>::empty()
    } else {
        all_pane_dirs(ws.drop_last()) + ws.last().panes
    }
}

/// How often a directory occurs among the recorded pane directories.
pub open spec fn count_of(dirs: Seq<Seq<char>>, d: Seq<char>) -> nat
    decreases dirs.len(),
{
    if dirs.len() == 0 {
        0
    } else {
        count_of(dirs.drop_last(), d) + if dirs.last() == d {
            1nat
        } else {
            0nat
        }
    }
}

/// Collects every pane working directory, in order.
fn collect_pane_dirs(windows: &Vec<ActiveWindow>) -> (r: Vec<String>)
    ensures
        r.deep_view() == all_pane_dirs(windows.deep_view()),
{
    let ghost wv = windows.deep_view();
    proof {
        assert(wv.len() == windows.len());
    }
    let mut dirs: Vec<String> = Vec::new();
    let mut i: usize = 0;
    proof {
        assert(wv.take(0) =~= Seq::<ActiveWindowView>::empty());
        assert(dirs.deep_view() =~= all_pane_dirs(wv.take(0)));
    }
    while i < windows.len()
        invariant
            i <= windows.len(),
            wv == windows.deep_view(),
            wv.len() == windows.len(),
            dirs.deep_view() == all_pane_dirs(wv.take(i as int)),
        decreases windows.len() - i,
    {
        proof {
            assert(wv.take(i + 1).drop_last() =~= wv.take(i as int));
            assert(wv.take(i + 1).last() == wv[i as int]);
            assert(windows@[i as int].deep_view() == wv[i as int]);
        }
        let mut ps = crate::templates::clone_string_vec(&windows[i].panes);
        let ghost psv = ps.deep_view();
        let ghost before = dirs.deep_view();
        dirs.append(&mut ps);
        proof {
            assert(dirs.deep_view() =~~= before + psv);
            assert(dirs.deep_view() =~~= all_pane_dirs(wv.take(i + 1)));
        }
        i = i + 1;
    }
    proof {
        assert(wv.take(windows.len() as int) =~= wv);
    }
    dirs
}

/// Counts how often `d` occurs among the directories.
fn count_dir(dirs: &Vec<String>, d: &str) -> (r: usize)
    ensures
        r == count_of(dirs.deep_view(), d@),
{
    let ghost dv = dirs.deep_view();
    proof {
        assert(dv.len() == dirs.len());
    }
    let mut n: usize = 0;
    let mut i: usize = 0;
    proof {
        assert(dv.take(0) =~= Seq::<Seq<char>>::empty());
    }
    while i < dirs.len()
        invariant
            i <= dirs.len(),
            dv == dirs.deep_view(),
            dv.len() == dirs.len(),
            n <= i,
            n == count_of(dv.take(i as int), d@),
        decreases dirs.len() - i,
    {
        proof {
            assert(dv.take(i + 1).drop_last() =~= dv.take(i as int));
            assert(dv.take(i + 1).last() == dv[i as int]);
            assert(dirs@[i as int]@ == dv[i as int]);
        }
        if str_eq(dirs[i].as_str(), d) {
            n = n + 1;
        }
        i = i + 1;
    }
    proof {
        assert(dv.take(dirs.len() as int) =~= dv);
    }
    n
}

/// Picks the most frequent pane working directory as the project root.  The
/// returned directory occurs at least as often as every other; among equally
/// frequent directories the one encountered first wins.  Only a snapshot
/// without any pane yields nothing.
pub fn most_used_path(windows: &Vec<ActiveWindow>) -> (r: Option<String>)
    ensures
        ({
            let dirs = all_pane_dirs(windows.deep_view());
            match r {
                None => dirs.len() == 0,
                Some(d) => {
                    &&& dirs.len() > 0
                    &&& forall|j: int|
                        0 <= j < dirs.len() ==> count_of(dirs, #[trigger] dirs[j]) <= count_of(
                            dirs,
                            d@,
                        )
                    &&& exists|bf: int|
                        {
                            &&& 0 <= bf < dirs.len()
                            &&& #[trigger] dirs[bf] == d@
                            &&& forall|j: int| 0 <= j < bf ==> #[trigger] dirs[j] != d@
                            &&& forall|j: int|
                                0 <= j < bf ==> count_of(dirs, #[trigger] dirs[j]) < count_of(
                                    dirs,
                                    d@,
                                )
                        }
                },
            }
        }),
{
    let dirs = collect_pane_dirs(windows);
    let ghost dv = dirs.deep_view();
    proof {
        assert(dv.len() == dirs.len());
    }
    if dirs.len() == 0 {
        return None;
    }
    proof {
        assert(dirs@[0]@ == dv[0]);
    }
    let mut best: String = dirs[0].clone();
    let mut best_count: usize = count_dir(&dirs, best.as_str());
    let ghost mut bf: int = 0;
    let mut i: usize = 1;
    while i < dirs.len()
        invariant
            1 <= i <= dirs.len(),
            dv == dirs.deep_view(),
            dv.len() == dirs.len(),
            0 <= bf < i,
            dv[bf] == best@,
            best_count == count_of(dv, best@),
            forall|j: int| 0 <= j < i ==> count_of(dv, #[trigger] dv[j]) <= best_count,
            forall|j: int| 0 <= j < bf ==> count_of(dv, #[trigger] dv[j]) < best_count,
        decreases dirs.len() - i,
    {
        proof {
            assert(dirs@[i as int]@ == dv[i as int]);
        }
        let c = count_dir(&dirs, dirs[i].as_str());
        if c > best_count {
            best = dirs[i].clone();
            best_count = c;
            proof {
                bf = i as int;
            }
        }
        i = i + 1;
    }
    proof {
        assert forall|j: int| 0 <= j < bf implies #[trigger] dv[j] != best@ by {
            if dv[j] == best@ {
                assert(count_of(dv, dv[j]) == count_of(dv, best@));
            }
        }
    }
    Some(best)
}

// ---------------------------------------------------------------------------
// Turning a snapshot back into a declarative layout
// ---------------------------------------------------------------------------

/// The pane command recorded for one working directory: a pane already at
/// the chosen root needs no command; any other pane changes into its
/// directory, written as a single double-quoted shell token.
pub open spec fn pane_cmd_spec(dir: Seq<char>, root: Seq<char>) -> Seq<char> {
    if dir == root {
        Seq::<char>::empty()
    } else {
        seq!['c', 'd', ' ', '"'] + escape_spec(dir) + seq!['"']
    }
}

/// The declarative shape of one reconstructed window.
pub open spec fn frozen_window(w: ActiveWindowView, root: Seq<char>) -> WindowView {
    WindowView {
        name: Some(w.name),
        layout: Some(w.layout),
        panes: w.panes.map_values(|d: Seq<char>| pane_cmd_spec(d, root)),
    }
}

impl ActiveWindow {
    /// Converts a reconstructed window into a declared window relative to
    /// the chosen project root.
    pub fn to_template_window(&self, most_used_path: &str) -> (r: Window)
        ensures
            r.deep_view() == frozen_window(self.deep_view(), most_used_path@),
    {
        let ghost pv = self.panes.deep_view();
        proof {
            assert(pv.len() == self.panes.len());
        }
        let mut panes: Vec<String> = Vec::new();
        let mut j: usize = 0;
        let ghost f = |d: Seq<char>| pane_cmd_spec(d, most_used_path@);
        while j < self.panes.len()
            invariant
                j <= self.panes.len(),
                pv == self.panes.deep_view(),
                pv.len() == self.panes.len(),
                panes.len() == j,
                f == (|d: Seq<char>| pane_cmd_spec(d, most_used_path@)),
                forall|k: int| 0 <= k < j ==> panes.deep_view()[k] == f(pv[k]),
            decreases self.panes.len() - j,
        {
            proof {
                assert(self.panes@[j as int]@ == pv[j as int]);
            }
            let dir = &self.panes[j];
            let cmd: String = if str_eq(dir.as_str(), most_used_path) {
                let c = String::new();
                proof {
                    assert(c@ =~= pane_cmd_spec(dir@, most_used_path@));
                }
                c
            } else {
                let mut c = String::new();
                push_char(&mut c, 'c');
                push_char(&mut c, 'd');
                push_char(&mut c, ' ');
                push_char(&mut c, '"');
                let escaped = escape_shell_arg(dir.as_str());
                c.append(escaped.as_str());
                push_char(&mut c, '"');
                proof {
                    assert(c@ =~= pane_cmd_spec(dir@, most_used_path@));
                }
                c
            };
            let ghost cv = cmd@;
            proof {
                assert(cv == pane_cmd_spec(dir@, most_used_path@));
                assert(dir@ == pv[j as int]);
                assert(f(pv[j as int]) == pane_cmd_spec(pv[j as int], most_used_path@));
                assert(cv == f(pv[j as int]));
            }
            let ghost before = panes.deep_view();
            panes.push(cmd);
            proof {
                assert(panes.deep_view().len() == panes@.len());
                assert(panes.deep_view() =~~= before.push(cv));
            }
            j = j + 1;
        }
        proof {
            assert(panes.deep_view().len() == panes@.len());
            assert forall|k: int| 0 <= k < pv.len() implies pv.map_values(f)[k]
                == panes.deep_view()[k] by {
                assert(pv.map_values(f)[k] == f(pv[k]));
            }
            assert(panes.deep_view() =~= pv.map_values(f));
        }
        Window { name: Some(self.name.clone()), layout: Some(self.layout.clone()), panes }
    }
}

/// The name a frozen project receives: the caller's name if one was given,
/// else the root directory's final component, else a placeholder.
pub open spec fn project_name_spec(name: Option<Seq<char>>, root: Seq<char>) -> Seq<char> {
    match name {
        Some(n) => n,
        None => if dir_name_spec(root).len() > 0 {
            dir_name_spec(root)
        } else {
            "Unnamed Project"@
        },
    }
}

/// All reconstructed windows, declared relative to the chosen root.
pub open spec fn frozen_windows(ws: Seq<ActiveWindowView>, root: Seq<char>) -> Seq<WindowView> {
    ws.map_values(|w: ActiveWindowView| frozen_window(w, root))
}

/// Assembles the frozen project: the chosen root becomes the root directory,
/// every reconstructed window becomes an inline declared window, and the
/// name falls back from the caller's choice to the root's final component to
/// a placeholder.
pub fn freeze_project(
    windows: &Vec<ActiveWindow>,
    name: Option<String>,
    most_used_path: &str,
) -> (r: Project)
    ensures
        r.deep_view() == (ProjectView {
            name: project_name_spec(name.deep_view(), most_used_path@),
            root_dir: most_used_path@,
            setup: ProjectSetupView::Windows(
                frozen_windows(windows.deep_view(), most_used_path@),
            ),
        }),
{
    let ghost wv = windows.deep_view();
    proof {
        assert(wv.len() == windows.len());
    }
    let project_name: String = match name {
        Some(n) => n,
        None => {
            let derived = dir_name(most_used_path);
            if derived.as_str().unicode_len() > 0 {
                derived
            } else {
                proof {
                    reveal_strlit("Unnamed Project");
                }
                "Unnamed Project".to_owned()
            }
        },
    };
    let ghost f = |w: ActiveWindowView| frozen_window(w, most_used_path@);
    let mut out: Vec<Window> = Vec::new();
    let mut i: usize = 0;
    while i < windows.len()
        invariant
            i <= windows.len(),
            wv == windows.deep_view(),
            wv.len() == windows.len(),
            out.len() == i,
            f == (|w: ActiveWindowView| frozen_window(w, most_used_path@)),
            forall|k: int| 0 <= k < i ==> out.deep_view()[k] == f(wv[k]),
        decreases windows.len() - i,
    {
        proof {
            assert(windows@[i as int].deep_view() == wv[i as int]);
        }
        let w = windows[i].to_template_window(most_used_path);
        let ghost wview = w.deep_view();
        proof {
            assert(f(wv[i as int]) == frozen_window(wv[i as int], most_used_path@));
            assert(wview == f(wv[i as int]));
        }
        let ghost before = out.deep_view();
        out.push(w);
        proof {
            assert(out.deep_view().len() == out@.len());
            assert(out.deep_view() =~~= before.push(wview));
        }
        i = i + 1;
    }
    proof {
        assert(out.deep_view().len() == out@.len());
        assert forall|k: int| 0 <= k < wv.len() implies wv.map_values(f)[k] == out.deep_view()[k]
        by {
            assert(wv.map_values(f)[k] == f(wv[k]));
        }
        assert(out.deep_view() =~= wv.map_values(f));
    }
    Project {
        name: project_name,
        root_dir: most_used_path.to_owned(),
        setup: ProjectSetup::Windows(out),
    }
}

// ---------------------------------------------------------------------------
// Reporting a parse error, and naming the frozen file
// ---------------------------------------------------------------------------

/// The report text of one rejected line.
pub open spec fn parse_error_message(e: ParseErrorView) -> Seq<char> {
    match e {
        ParseErrorView::NoPrefix => Seq::<char>::empty(),
        ParseErrorView::UndefinedPrefix(p) => "The prefix "@ + p + " isn't defined"@,
        ParseErrorView::MissingData(i) => if i == 0 {
            "The first entry is missing"@
        } else if i == 1 {
            "The second entry is missing"@
        } else {
            "The "@ + dec_digits((i + 1) as nat) + "th entry is missing"@
        },
        ParseErrorView::NoNumber(s) => s + " isn't a number"@,
    }
}

impl TmuxParseError {
    /// Writes the error out for the caller's warning.
    pub fn message(&self) -> (r: String)
        requires
            self matches TmuxParseError::MissingData(i) ==> i < usize::MAX,
        ensures
            r@ == parse_error_message(self.deep_view()),
    {
        match self {
            TmuxParseError::NoPrefix => String::new(),
            TmuxParseError::UndefinedPrefix(p) => {
                let mut m = "The prefix ".to_owned();
                m.append(p.as_str());
                m.append(" isn't defined");
                proof {
                    assert(m@ =~= parse_error_message(self.deep_view()));
                }
                m
            },
            TmuxParseError::MissingData(i) => {
                if *i == 0 {
                    "The first entry is missing".to_owned()
                } else if *i == 1 {
                    "The second entry is missing".to_owned()
                } else {
                    let mut m = "The ".to_owned();
                    let num = usize_to_string(*i + 1);
                    m.append(num.as_str());
                    m.append("th entry is missing");
                    proof {
                        assert(m@ =~= parse_error_message(self.deep_view()));
                    }
                    m
                }
            },
            TmuxParseError::NoNumber(st) => {
                let mut m = st.clone();
                m.append(" isn't a number");
                m
            },
        }
    }
}

/// Whether a character occurs in the sequence.
pub open spec fn has_char(s: Seq<char>, c: char) -> bool {
    exists|i: int| 0 <= i < s.len() && s[i] == c
}

/// Whether the sequence ends in the other.
pub open spec fn ends_with(s: Seq<char>, suffix: Seq<char>) -> bool {
    s.len() >= suffix.len() && s.skip(s.len() - suffix.len()) == suffix
}

/// The file the frozen project is written under: the chosen name, which may
/// not contain a path separator, with a `.yaml` extension added unless it
/// already carries one.
pub open spec fn freeze_file_name_spec(name: Seq<char>) -> Result<Seq<char>, Seq<char>> {
    if has_char(name, '/') {
        Err("File name can't contain /"@)
    } else if ends_with(name, ".yaml"@) {
        Ok(name)
    } else {
        Ok(name + ".yaml"@)
    }
}

pub fn freeze_file_name(name: &str) -> (r: Result<String, String>)
    ensures
        match r {
            Ok(f) => freeze_file_name_spec(name@) == Ok::<Seq<char>, Seq<char>>(f@),
            Err(e) => freeze_file_name_spec(name@) == Err::<Seq<char>, Seq<char>>(e@),
        },
{
    let len = name.unicode_len();
    let mut i: usize = 0;
    while i < len
        invariant
            i <= len,
            len == name@.len(),
            forall|j: int| 0 <= j < i ==> name@[j] != '/',
        decreases len - i,
    {
        if name.get_char(i) == '/' {
            proof {
                assert(has_char(name@, '/'));
            }
            return Err("File name can't contain /".to_owned());
        }
        i = i + 1;
    }
    proof {
        assert(!has_char(name@, '/'));
    }
    let suffixed = if len >= 5 {
        let tail = name.substring_char(len - 5, len);
        proof {
            assert(tail@ =~= name@.skip(len - 5));
        }
        str_eq(tail, ".yaml")
    } else {
        proof {
            reveal_strlit(".yaml");
        }
        false
    };
    if suffixed {
        Ok(name.to_owned())
    } else {
        proof {
            reveal_strlit(".yaml");
        }
        let mut f = name.to_owned();
        f.append(".yaml");
        Ok(f)
    }
}

// ---------------------------------------------------------------------------
// The round trip from a live state through freezing and compiling
// ---------------------------------------------------------------------------

proof fn lemma_frozen_panes(ws: Seq<ActiveWindowView>, root: Seq<char>)
    ensures
        crate::templates::all_window_panes(frozen_windows(ws, root)) == all_pane_dirs(
            ws,
        ).map_values(|d: Seq<char>| pane_cmd_spec(d, root)),
    decreases ws.len(),
{
    let f = |d: Seq<char>| pane_cmd_spec(d, root);
    let fr = frozen_windows(ws, root);
    if ws.len() == 0 {
        assert(fr =~= Seq::<WindowView>::empty());
        assert(crate::templates::all_window_panes(fr) =~= all_pane_dirs(ws).map_values(f));
    } else {
        lemma_frozen_panes(ws.drop_last(), root);
        assert(fr.drop_last() =~= frozen_windows(ws.drop_last(), root));
        assert(fr.last() == frozen_window(ws.last(), root));
        assert(crate::templates::all_window_panes(fr) =~= all_pane_dirs(ws).map_values(f));
    }
}

proof fn lemma_frozen_filter(dirs: Seq<Seq<char>>, root: Seq<char>)
    ensures
        dirs.map_values(|d: Seq<char>| pane_cmd_spec(d, root)).filter(
            |c: Seq<char>| c.len() > 0,
        ) == dirs.filter(|d: Seq<char>| d != root).map_values(
            |d: Seq<char>| pane_cmd_spec(d, root),
        ),
    decreases dirs.len(),
{
    let f = |d: Seq<char>| pane_cmd_spec(d, root);
    let nonempty = |c: Seq<char>| c.len() > 0;
    let offroot = |d: Seq<char>| d != root;
    reveal_with_fuel(Seq::filter, 2);
    if dirs.len() == 0 {
        assert(dirs.map_values(f) =~= Seq::<Seq<char>>::empty());
        assert(dirs.map_values(f).filter(nonempty) =~= Seq::<Seq<char>>::empty());
        assert(dirs.filter(offroot) =~= Seq::<Seq<char>>::empty());
        assert(dirs.filter(offroot).map_values(f) =~= Seq::<Seq<char>>::empty());
    } else {
        lemma_frozen_filter(dirs.drop_last(), root);
        let last = dirs.last();
        assert(f(last).len() > 0 <==> last != root) by {
            if last != root {
                assert(pane_cmd_spec(last, root).len() >= 5);
            }
        }
        assert(dirs.map_values(f).drop_last() =~= dirs.drop_last().map_values(f));
        assert(dirs.map_values(f).last() == f(last));
        if last != root {
            assert(dirs.map_values(f).filter(nonempty) == dirs.drop_last().map_values(f).filter(
                nonempty,
            ).push(f(last)));
            assert(dirs.filter(offroot) == dirs.drop_last().filter(offroot).push(last));
            assert(dirs.filter(offroot).map_values(f) =~= dirs.drop_last().filter(
                offroot,
            ).map_values(f).push(f(last)));
            assert(dirs.map_values(f).filter(nonempty) =~= dirs.filter(offroot).map_values(f));
        } else {
            assert(dirs.map_values(f).filter(nonempty) == dirs.drop_last().map_values(f).filter(
                nonempty,
            ));
            assert(dirs.filter(offroot) == dirs.drop_last().filter(offroot));
            assert(dirs.map_values(f).filter(nonempty) =~= dirs.filter(offroot).map_values(f));
        }
    }
}

/// The round trip: compiling the windows frozen from a live state types
/// exactly one `cd` command, in pane order, for every recorded pane
/// directory that differs from the chosen root, and nothing for a pane
/// already at the root.
pub proof fn lemma_freeze_round_trip(
    ws: Seq<ActiveWindowView>,
    root: Seq<char>,
    dir: Option<Seq<char>>,
)
    ensures
        crate::templates::sent_texts(
            crate::templates::windows_cmds(frozen_windows(ws, root), dir),
        ) == all_pane_dirs(ws).filter(|d: Seq<char>| d != root).map_values(
            |d: Seq<char>| pane_cmd_spec(d, root),
        ),
{
    crate::templates::lemma_windows_cmds_sent(frozen_windows(ws, root), dir);
    lemma_frozen_panes(ws, root);
    lemma_frozen_filter(all_pane_dirs(ws), root);
}

// ---------------------------------------------------------------------------
// The window map is genuinely ordered
// ---------------------------------------------------------------------------

/// The reconstructed windows are strictly ordered by their grouping key, so
/// the snapshot's output order is deterministic and no key repeats.
pub open spec fn windows_ordered(m: Seq<ActiveWindowView>) -> bool {
    forall|p: int, q: int|
        0 <= p < q < m.len() ==> key_lt((#[trigger] m[p]).index, m[p].session_name, #[trigger] m[
            q
        ])
}

proof fn lemma_key_lt_trans(a: ActiveWindowView, b: ActiveWindowView, c: ActiveWindowView)
    requires
        key_lt(a.index, a.session_name, b),
        key_lt(b.index, b.session_name, c),
    ensures
        key_lt(a.index, a.session_name, c),
{
    if a.index == b.index && b.index == c.index {
        crate::strutil::lemma_seq_lt_trans(a.session_name, b.session_name, c.session_name);
    }
}

proof fn lemma_key_connex(w: ActiveWindowView, e: ActiveWindowView)
    requires
        !key_lt(w.index, w.session_name, e),
        !same_key(e, w.index, w.session_name),
    ensures
        key_lt(e.index, e.session_name, w),
{
    if e.index == w.index {
        assert(e.session_name != w.session_name);
        crate::strutil::lemma_seq_lt_connex(w.session_name, e.session_name);
    }
}

proof fn lemma_find_entry_range(m: Seq<ActiveWindowView>, index: usize, session: Seq<char>)
    ensures
        -1 <= find_entry(m, index, session) < m.len(),
        find_entry(m, index, session) >= 0 ==> same_key(
            m[find_entry(m, index, session)],
            index,
            session,
        ),
    decreases m.len(),
{
    if m.len() == 0 {
    } else if same_key(m[0], index, session) {
    } else {
        lemma_find_entry_range(m.drop_first(), index, session);
        let r = find_entry(m.drop_first(), index, session);
        if r >= 0 {
            assert(m.drop_first()[r] == m[r + 1]);
        }
    }
}

proof fn lemma_find_entry_none(m: Seq<ActiveWindowView>, index: usize, session: Seq<char>)
    requires
        find_entry(m, index, session) == -1,
    ensures
        forall|j: int| 0 <= j < m.len() ==> !same_key(#[trigger] m[j], index, session),
    decreases m.len(),
{
    if m.len() == 0 {
    } else {
        assert(!same_key(m[0], index, session));
        lemma_find_entry_none(m.drop_first(), index, session);
        assert forall|j: int| 1 <= j < m.len() implies !same_key(
            #[trigger] m[j],
            index,
            session,
        ) by {
            assert(m.drop_first()[j - 1] == m[j]);
        }
    }
}

proof fn lemma_insert_sorted_elems(m: Seq<ActiveWindowView>, w: ActiveWindowView)
    ensures
        insert_sorted(m, w).len() == m.len() + 1,
        forall|k: int|
            0 <= k < insert_sorted(m, w).len() ==> (#[trigger] insert_sorted(m, w)[k] == w
                || m.contains(insert_sorted(m, w)[k])),
    decreases m.len(),
{
    let r = insert_sorted(m, w);
    if m.len() == 0 {
    } else if key_lt(w.index, w.session_name, m[0]) {
        assert forall|k: int| 0 <= k < r.len() implies (#[trigger] r[k] == w || m.contains(
            r[k],
        )) by {
            if k > 0 {
                assert(r[k] == m[k - 1]);
            }
        }
    } else {
        let t = m.drop_first();
        lemma_insert_sorted_elems(t, w);
        let rt = insert_sorted(t, w);
        assert forall|k: int| 0 <= k < r.len() implies (#[trigger] r[k] == w || m.contains(
            r[k],
        )) by {
            if k == 0 {
                assert(r[0] == m[0]);
                assert(m.contains(m[0]));
            } else {
                assert(r[k] == rt[k - 1]);
                if rt[k - 1] == w {
                } else {
                    assert(t.contains(rt[k - 1]));
                    let j = choose|j: int| 0 <= j < t.len() && t[j] == rt[k - 1];
                    assert(m[j + 1] == t[j]);
                    assert(m.contains(m[j + 1]));
                }
            }
        }
    }
}

proof fn lemma_insert_sorted_ordered(m: Seq<ActiveWindowView>, w: ActiveWindowView)
    requires
        windows_ordered(m),
        forall|j: int| 0 <= j < m.len() ==> !same_key(#[trigger] m[j], w.index, w.session_name),
    ensures
        windows_ordered(insert_sorted(m, w)),
    decreases m.len(),
{
    let r = insert_sorted(m, w);
    if m.len() == 0 {
    } else if key_lt(w.index, w.session_name, m[0]) {
        assert forall|p: int, q: int| 0 <= p < q < r.len() implies key_lt(
            (#[trigger] r[p]).index,
            r[p].session_name,
            #[trigger] r[q],
        ) by {
            if p == 0 {
                assert(r[q] == m[q - 1]);
                if q == 1 {
                } else {
                    lemma_key_lt_trans(w, m[0], m[q - 1]);
                }
            } else {
                assert(r[p] == m[p - 1]);
                assert(r[q] == m[q - 1]);
            }
        }
    } else {
        let t = m.drop_first();
        assert forall|j: int| 0 <= j < t.len() implies !same_key(
            #[trigger] t[j],
            w.index,
            w.session_name,
        ) by {
            assert(t[j] == m[j + 1]);
        }
        assert forall|p: int, q: int| 0 <= p < q < t.len() implies key_lt(
            (#[trigger] t[p]).index,
            t[p].session_name,
            #[trigger] t[q],
        ) by {
            assert(t[p] == m[p + 1]);
            assert(t[q] == m[q + 1]);
        }
        lemma_insert_sorted_ordered(t, w);
        lemma_insert_sorted_elems(t, w);
        let rt = insert_sorted(t, w);
        lemma_key_connex(w, m[0]);
        assert forall|p: int, q: int| 0 <= p < q < r.len() implies key_lt(
            (#[trigger] r[p]).index,
            r[p].session_name,
            #[trigger] r[q],
        ) by {
            if p == 0 {
                assert(r[0] == m[0]);
                assert(r[q] == rt[q - 1]);
                if rt[q - 1] == w {
                } else {
                    assert(t.contains(rt[q - 1]));
                    let j = choose|j: int| 0 <= j < t.len() && t[j] == rt[q - 1];
                    assert(m[j + 1] == t[j]);
                }
            } else {
                assert(r[p] == rt[p - 1]);
                assert(r[q] == rt[q - 1]);
            }
        }
    }
}

proof fn lemma_agg_step_ordered(m: Seq<ActiveWindowView>, inst: ActiveInstanceView)
    requires
        windows_ordered(m),
    ensures
        windows_ordered(agg_step(m, inst)),
{
    match inst {
        ActiveInstanceView::Window { name, layout, index, session_name } => {
            if find_entry(m, index, session_name) >= 0 {
            } else {
                lemma_find_entry_none(m, index, session_name);
                let w = ActiveWindowView {
                    index,
                    session_name,
                    name,
                    layout,
                    panes: Seq::<Seq<char>>::empty(),
                };
                lemma_insert_sorted_ordered(m, w);
            }
        },
        ActiveInstanceView::Pane { window_index, cwd, session_name } => {
            let k = find_entry(m, window_index, session_name);
            lemma_find_entry_range(m, window_index, session_name);
            if k < 0 {
            } else {
                let r = agg_step(m, inst);
                assert forall|p: int, q: int| 0 <= p < q < r.len() implies key_lt(
                    (#[trigger] r[p]).index,
                    r[p].session_name,
                    #[trigger] r[q],
                ) by {
                    assert(r[p].index == m[p].index && r[p].session_name == m[p].session_name);
                    assert(r[q].index == m[q].index && r[q].session_name == m[q].session_name);
                }
            }
        },
    }
}

proof fn lemma_agg_ordered(insts: Seq<ActiveInstanceView>)
    ensures
        windows_ordered(agg_windows(insts)),
    decreases insts.len(),
{
    if insts.len() == 0 {
    } else {
        lemma_agg_ordered(insts.drop_last());
        lemma_agg_step_ordered(agg_windows(insts.drop_last()), insts.last());
    }
}

/// What the snapshot returns is strictly ordered by (index, session): the
/// output order is deterministic however the records arrived, and no two
/// windows share a key.
pub proof fn lemma_snapshot_windows_ordered(s: Seq<char>)
    ensures
        windows_ordered(snapshot_windows(s)),
{
    lemma_agg_ordered(ok_records(parsed_records(s)));
}

} // verus!
