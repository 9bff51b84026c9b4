use vstd::prelude::*;
use crate::helpers::{dir_name, dir_name_spec};
use crate::strutil::{lines_spec, push_char, split_lines, str_eq};

verus! {

// ---------------------------------------------------------------------------
// The configured directory list
// ---------------------------------------------------------------------------

/// The configured directories: an ordered list of name/path pairs with
/// pairwise distinct names.
#[derive(Debug, Clone)]
pub struct Directories {
    pub entries: Vec<(String, String)>,
}

impl Directories {
    /// Names are unique: no two entries share one.
    pub open spec fn well_formed(&self) -> bool {
        forall|i: int, j: int|
            0 <= i < j < self.entries.deep_view().len() ==> (#[trigger] self.entries.deep_view()[
                i
            ]).0 != (#[trigger] self.entries.deep_view()[j]).0
    }

    /// The path of the first entry configured under `name`, if any.
    pub fn get<'a>(&'a self, name: &str) -> (r: Option<&'a String>)
        ensures
            match r {
                Some(p) => exists|k: int|
                    {
                        &&& 0 <= k < self.entries.deep_view().len()
                        &&& (#[trigger] self.entries.deep_view()[k]) == (name@, p@)
                        &&& forall|j: int|
                            0 <= j < k ==> (#[trigger] self.entries.deep_view()[j]).0 != name@
                    },
                None => forall|k: int|
                    0 <= k < self.entries.deep_view().len() ==> (
                    #[trigger] self.entries.deep_view()[k]).0 != name@,
            },
    {
        let ghost ev = self.entries.deep_view();
        proof {
            assert(ev.len() == self.entries.len());
        }
        let mut k: usize = 0;
        while k < self.entries.len()
            invariant
                k <= self.entries.len(),
                ev == self.entries.deep_view(),
                ev.len() == self.entries.len(),
                forall|j: int| 0 <= j < k ==> (#[trigger] ev[j]).0 != name@,
            decreases self.entries.len() - k,
        {
            let e = &self.entries[k];
            proof {
                assert(ev[k as int] == (e.0@, e.1@));
            }
            if str_eq(e.0.as_str(), name) {
                return Some(&e.1);
            }
            k = k + 1;
        }
        None
    }

    /// The configured names, in entry order.
    pub fn names(&self) -> (r: Vec<String>)
        ensures
            r.deep_view() == self.entries.deep_view().map_values(
                |e: (Seq<char>, Seq<char>)| e.0,
            ),
    {
        let ghost ev = self.entries.deep_view();
        let ghost f = |e: (Seq<char>, Seq<char>)| e.0;
        proof {
            assert(ev.len() == self.entries.len());
        }
        let mut r: Vec<String> = Vec::new();
        let mut k: usize = 0;
        while k < self.entries.len()
            invariant
                k <= self.entries.len(),
                ev == self.entries.deep_view(),
                ev.len() == self.entries.len(),
                r.len() == k,
                f == (|e: (Seq<char>, Seq<char>)| e.0),
                forall|j: int| 0 <= j < k ==> r.deep_view()[j] == f(ev[j]),
            decreases self.entries.len() - k,
        {
            proof {
                assert(ev[k as int] == (self.entries@[k as int].0@, self.entries@[k as int].1@));
            }
            let ghost before = r.deep_view();
            r.push(self.entries[k].0.clone());
            proof {
                assert(r.deep_view().len() == r@.len());
                assert(r.deep_view() =~~= before.push(ev[k as int].0));
            }
            k = k + 1;
        }
        proof {
            assert(r.deep_view().len() == r@.len());
            assert forall|j: int| 0 <= j < ev.len() implies ev.map_values(f)[j] == r.deep_view()[j]
            by {
                assert(ev.map_values(f)[j] == f(ev[j]));
            }
            assert(r.deep_view() =~= ev.map_values(f));
        }
        r
    }
}

/// Why the directory configuration was rejected.
#[derive(Debug)]
pub enum ParseDirectoryError {
    NoDirName { dir: String },
    DuplicateName { name: String, values: (String, String) },
}

/// The mathematical shape of a directory-configuration error.
#[verifier::ext_equal]
pub enum DirectoryErrorView {
    NoDirName { dir: Seq<char> },
    DuplicateName { name: Seq<char>, values: (Seq<char>, Seq<char>) },
}

impl DeepView for ParseDirectoryError {
    type V = DirectoryErrorView;

    open spec fn deep_view(&self) -> DirectoryErrorView {
        match self {
            ParseDirectoryError::NoDirName { dir } => DirectoryErrorView::NoDirName { dir: dir@ },
            ParseDirectoryError::DuplicateName { name, values } =>
                DirectoryErrorView::DuplicateName {
                    name: name@,
                    values: (values.0@, values.1@),
                },
        }
    }
}

// ---------------------------------------------------------------------------
// Whitespace trimming, as the standard library defines it
// ---------------------------------------------------------------------------

/// The characters with the Unicode White_Space property, which is what
/// `char::is_whitespace` and `str::trim` go by.
pub open spec fn is_space(c: char) -> bool {
    ||| c == ' '
    ||| c == '\t'
    ||| c == '\n'
    ||| c == '\u{b}'
    ||| c == '\u{c}'
    ||| c == '\r'
    ||| c == '\u{85}'
    ||| c == '\u{a0}'
    ||| c == '\u{1680}'
    ||| ('\u{2000}' <= c && c <= '\u{200a}')
    ||| c == '\u{2028}'
    ||| c == '\u{2029}'
    ||| c == '\u{202f}'
    ||| c == '\u{205f}'
    ||| c == '\u{3000}'
}

/// The sequence without leading whitespace.
pub open spec fn trim_start_spec(s: Seq<char>) -> Seq<char>
    decreases s.len(),
{
    if s.len() > 0 && is_space(s[0]) {
        trim_start_spec(s.drop_first())
    } else {
        s
    }
}

/// The sequence without trailing whitespace.
pub open spec fn trim_end_spec(s: Seq<char>) -> Seq<char>
    decreases s.len(),
{
    if s.len() > 0 && is_space(s.last()) {
        trim_end_spec(s.drop_last())
    } else {
        s
    }
}

/// The sequence without leading or trailing whitespace.
pub open spec fn trim_spec(s: Seq<char>) -> Seq<char> {
    trim_start_spec(trim_end_spec(s))
}

fn is_space_exec(c: char) -> (r: bool)
    ensures
        r == is_space(c),
{
    c == ' ' || c == '\t' || c == '\n' || c == '\u{b}' || c == '\u{c}' || c == '\r' || c
        == '\u{85}' || c == '\u{a0}' || c == '\u{1680}' || ('\u{2000}' <= c && c <= '\u{200a}')
        || c == '\u{2028}' || c == '\u{2029}' || c == '\u{202f}' || c == '\u{205f}' || c
        == '\u{3000}'
}

proof fn lemma_trim_start_bounds(s: Seq<char>, i: int)
    requires
        0 <= i <= s.len(),
        forall|j: int| 0 <= j < i ==> is_space(s[j]),
        i < s.len() ==> !is_space(s[i]),
    ensures
        trim_start_spec(s) == s.subrange(i, s.len() as int),
    decreases s.len(),
{
    if s.len() == 0 {
        assert(trim_start_spec(s) =~= s.subrange(0, 0));
    } else if i == 0 {
        assert(trim_start_spec(s) =~= s.subrange(0, s.len() as int));
    } else {
        assert(is_space(s[0]));
        let t = s.drop_first();
        assert forall|j: int| 0 <= j < i - 1 implies is_space(t[j]) by {
            assert(t[j] == s[j + 1]);
        }
        if i - 1 < t.len() {
            assert(t[i - 1] == s[i]);
        }
        lemma_trim_start_bounds(t, i - 1);
        assert(t.subrange(i - 1, t.len() as int) =~= s.subrange(i, s.len() as int));
    }
}

proof fn lemma_trim_end_bounds(s: Seq<char>, e: int)
    requires
        0 <= e <= s.len(),
        forall|j: int| e <= j < s.len() ==> is_space(s[j]),
        e > 0 ==> !is_space(s[e - 1]),
    ensures
        trim_end_spec(s) == s.subrange(0, e),
    decreases s.len(),
{
    if s.len() == 0 {
        assert(trim_end_spec(s) =~= s.subrange(0, 0));
    } else if e == s.len() {
        assert(trim_end_spec(s) =~= s.subrange(0, e));
    } else {
        assert(is_space(s.last()));
        let t = s.drop_last();
        assert forall|j: int| e <= j < t.len() implies is_space(t[j]) by {
            assert(t[j] == s[j]);
        }
        if e > 0 {
            assert(t[e - 1] == s[e - 1]);
        }
        lemma_trim_end_bounds(t, e);
        assert(t.subrange(0, e) =~= s.subrange(0, e));
    }
}

proof fn lemma_trim_bounds(s: Seq<char>, i: int, e: int)
    requires
        0 <= i <= e <= s.len(),
        forall|j: int| 0 <= j < i ==> is_space(s[j]),
        forall|j: int| e <= j < s.len() ==> is_space(s[j]),
        i < e ==> !is_space(s[i]),
        i < e ==> !is_space(s[e - 1]),
    ensures
        trim_spec(s) == s.subrange(i, e),
{
    if i == e {
        lemma_trim_end_bounds(s, 0);
        assert(trim_end_spec(s) =~= Seq::<char>::empty());
        lemma_trim_start_bounds(Seq::<char>::empty(), 0);
        assert(trim_spec(s) =~= s.subrange(i, e));
    } else {
        lemma_trim_end_bounds(s, e);
        let t = s.subrange(0, e);
        assert forall|j: int| 0 <= j < i implies is_space(t[j]) by {
            assert(t[j] == s[j]);
        }
        assert(t[i] == s[i]);
        lemma_trim_start_bounds(t, i);
        assert(t.subrange(i, t.len() as int) =~= s.subrange(i, e));
    }
}

/// Removes leading and trailing whitespace.
pub fn trim_str(s: &str) -> (r: String)
    ensures
        r@ == trim_spec(s@),
{
    let len = s.unicode_len();
    let mut i: usize = 0;
    while i < len && is_space_exec(s.get_char(i))
        invariant
            i <= len,
            len == s@.len(),
            forall|j: int| 0 <= j < i ==> is_space(s@[j]),
        decreases len - i,
    {
        i = i + 1;
    }
    let mut e: usize = len;
    while e > i && is_space_exec(s.get_char(e - 1))
        invariant
            i <= e <= len,
            len == s@.len(),
            forall|j: int| 0 <= j < i ==> is_space(s@[j]),
            forall|j: int| e <= j < len ==> is_space(s@[j]),
        decreases e,
    {
        e = e - 1;
    }
    proof {
        if i == e {
            assert forall|j: int| e <= j < len implies is_space(s@[j]) by {}
            lemma_trim_bounds(s@, i as int, e as int);
        } else {
            lemma_trim_bounds(s@, i as int, e as int);
        }
    }
    let r = s.substring_char(i, e);
    proof {
        assert(r@ =~= s@.subrange(i as int, e as int));
    }
    r.to_owned()
}

// ---------------------------------------------------------------------------
// Parsing the directory configuration
// ---------------------------------------------------------------------------

/// The position of the first colon in a line, or -1.
pub open spec fn first_colon(l: Seq<char>) -> int
    decreases l.len(),
{
    if l.len() == 0 {
        -1
    } else if l[0] == ':' {
        0
    } else {
        let r = first_colon(l.drop_first());
        if r < 0 {
            -1
        } else {
            r + 1
        }
    }
}

proof fn lemma_first_colon_at(l: Seq<char>, i: int)
    requires
        0 <= i <= l.len(),
        forall|j: int| 0 <= j < i ==> l[j] != ':',
        i < l.len() ==> l[i] == ':',
    ensures
        first_colon(l) == if i == l.len() {
            -1int
        } else {
            i
        },
    decreases l.len(),
{
    if l.len() == 0 {
    } else if i == 0 {
    } else {
        let t = l.drop_first();
        assert forall|j: int| 0 <= j < i - 1 implies t[j] != ':' by {
            assert(t[j] == l[j + 1]);
        }
        if i - 1 < t.len() {
            assert(t[i - 1] == l[i]);
        }
        lemma_first_colon_at(t, i - 1);
    }
}

/// What one configuration line contributes: a `name: path` line is split at
/// its first colon and both sides are trimmed; a bare path line is trimmed
/// and named after its final component, and is rejected when it has none.
pub open spec fn line_entry(l: Seq<char>) -> Result<(Seq<char>, Seq<char>), DirectoryErrorView> {
    let fc = first_colon(l);
    if fc >= 0 {
        Ok((trim_spec(l.take(fc)), trim_spec(l.skip(fc + 1))))
    } else {
        let p = trim_spec(l);
        let n = dir_name_spec(p);
        if n.len() == 0 {
            Err(DirectoryErrorView::NoDirName { dir: p })
        } else {
            Ok((n, p))
        }
    }
}

/// The position of the first entry with the given name, or -1.
pub open spec fn entry_index(acc: Seq<(Seq<char>, Seq<char>)>, n: Seq<char>) -> int
    decreases acc.len(),
{
    if acc.len() == 0 {
        -1
    } else if acc[0].0 == n {
        0
    } else {
        let r = entry_index(acc.drop_first(), n);
        if r < 0 {
            -1
        } else {
            r + 1
        }
    }
}

proof fn lemma_entry_index_at(acc: Seq<(Seq<char>, Seq<char>)>, n: Seq<char>, i: int)
    requires
        0 <= i <= acc.len(),
        forall|j: int| 0 <= j < i ==> (#[trigger] acc[j]).0 != n,
        i < acc.len() ==> acc[i].0 == n,
    ensures
        entry_index(acc, n) == if i == acc.len() {
            -1int
        } else {
            i
        },
    decreases acc.len(),
{
    if acc.len() == 0 {
    } else if i == 0 {
    } else {
        let t = acc.drop_first();
        assert forall|j: int| 0 <= j < i - 1 implies (#[trigger] t[j]).0 != n by {
            assert(t[j] == acc[j + 1]);
        }
        if i - 1 < t.len() {
            assert(t[i - 1] == acc[i]);
        }
        lemma_entry_index_at(t, n, i - 1);
    }
}

/// Reading the configuration lines from `i` on, with the entries gathered so
/// far: comment lines starting with `#` are skipped, each other line yields
/// an entry, and a name seen twice stops everything with both paths named.
pub open spec fn parse_dirs_from(
    lines: Seq<Seq<char>>,
    i: int,
    acc: Seq<(Seq<char>, Seq<char>)>,
) -> Result<Seq<(Seq<char>, Seq<char>)>, DirectoryErrorView>
    decreases lines.len() - i,
{
    if i < 0 || i >= lines.len() {
        Ok(acc)
    } else {
        let l = lines[i];
        if l.len() > 0 && l[0] == '#' {
            parse_dirs_from(lines, i + 1, acc)
        } else {
            match line_entry(l) {
                Err(e) => Err(e),
                Ok(entry) => {
                    let k = entry_index(acc, entry.0);
                    if k >= 0 {
                        Err(
                            DirectoryErrorView::DuplicateName {
                                name: entry.0,
                                values: (acc[k].1, entry.1),
                            },
                        )
                    } else {
                        parse_dirs_from(lines, i + 1, acc.push(entry))
                    }
                },
            }
        }
    }
}

/// What the whole directory configuration parses to.
pub open spec fn parse_dirs_spec(s: Seq<char>) -> Result<
    Seq<(Seq<char>, Seq<char>)>,
    DirectoryErrorView,
> {
    parse_dirs_from(lines_spec(s), 0, Seq::<(Seq<char>, Seq<char>)>::empty())
}

proof fn lemma_entry_index_none(acc: Seq<(Seq<char>, Seq<char>)>, n: Seq<char>)
    requires
        entry_index(acc, n) == -1,
    ensures
        forall|j: int| 0 <= j < acc.len() ==> (#[trigger] acc[j]).0 != n,
    decreases acc.len(),
{
    if acc.len() == 0 {
    } else {
        assert(acc[0].0 != n);
        lemma_entry_index_none(acc.drop_first(), n);
        assert forall|j: int| 1 <= j < acc.len() implies (#[trigger] acc[j]).0 != n by {
            assert(acc.drop_first()[j - 1] == acc[j]);
        }
    }
}

/// The position of the first gathered entry with the given name.
fn find_name_pos(entries: &Vec<(String, String)>, n: &str) -> (r: Option<usize>)
    ensures
        match r {
            Some(k) => k < entries.len() && entry_index(entries.deep_view(), n@) == k as int,
            None => entry_index(entries.deep_view(), n@) == -1,
        },
{
    let ghost accv = entries.deep_view();
    proof {
        assert(accv.len() == entries.len());
    }
    let mut k: usize = 0;
    while k < entries.len()
        invariant
            k <= entries.len(),
            accv == entries.deep_view(),
            accv.len() == entries.len(),
            forall|j: int| 0 <= j < k ==> (#[trigger] accv[j]).0 != n@,
        decreases entries.len() - k,
    {
        proof {
            assert(accv[k as int] == (entries@[k as int].0@, entries@[k as int].1@));
        }
        if str_eq(entries[k].0.as_str(), n) {
            proof {
                lemma_entry_index_at(accv, n@, k as int);
            }
            return Some(k);
        }
        k = k + 1;
    }
    proof {
        lemma_entry_index_at(accv, n@, accv.len() as int);
    }
    None
}

/// Parses the directory configuration text: one directory per line, either
/// as `name: path` or as a bare path named after its final component, with
/// `#` starting a comment line; a duplicated name rejects the whole
/// configuration.
pub fn parse_directory_config(content: &str) -> (r: Result<Directories, ParseDirectoryError>)
    ensures
        match r {
            Ok(d) => parse_dirs_spec(content@) == Ok::<
                Seq<(Seq<char>, Seq<char>)>,
                DirectoryErrorView,
            >(d.entries.deep_view()) && d.well_formed(),
            Err(e) => parse_dirs_spec(content@) == Err::<
                Seq<(Seq<char>, Seq<char>)>,
                DirectoryErrorView,
            >(e.deep_view()),
        },
{
    let lines = split_lines(content);
    let ghost lv = lines_spec(content@);
    proof {
        assert(lines.deep_view().len() == lines.len());
    }
    let mut entries: Vec<(String, String)> = Vec::new();
    let mut i: usize = 0;
    proof {
        assert(entries.deep_view() =~= Seq::<(Seq<char>, Seq<char>)>::empty());
    }
    while i < lines.len()
        invariant
            i <= lines.len(),
            lines.deep_view() == lv,
            lv == lines_spec(content@),
            lv.len() == lines.len(),
            parse_dirs_from(lv, 0, Seq::<(Seq<char>, Seq<char>)>::empty()) == parse_dirs_from(
                lv,
                i as int,
                entries.deep_view(),
            ),
            forall|p: int, q: int|
                0 <= p < q < entries.deep_view().len() ==> (#[trigger] entries.deep_view()[p]).0
                    != (#[trigger] entries.deep_view()[q]).0,
        decreases lines.len() - i,
    {
        let ghost accv = entries.deep_view();
        proof {
            assert(accv.len() == entries.len());
            assert(lines@[i as int]@ == lv[i as int]);
        }
        let line = &lines[i];
        let llen = line.as_str().unicode_len();
        if llen > 0 && line.as_str().get_char(0) == '#' {
            i = i + 1;
            continue;
        }
        // find the first colon
        let mut fc: usize = 0;
        while fc < llen && line.as_str().get_char(fc) != ':'
            invariant
                fc <= llen,
                llen == line@.len(),
                forall|j: int| 0 <= j < fc ==> line@[j] != ':',
            decreases llen - fc,
        {
            fc = fc + 1;
        }
        proof {
            lemma_first_colon_at(line@, fc as int);
        }
        let entry: (String, String) = if fc < llen {
            let left = line.as_str().substring_char(0, fc);
            let right = line.as_str().substring_char(fc + 1, llen);
            proof {
                assert(left@ =~= line@.take(fc as int));
                assert(right@ =~= line@.skip(fc + 1));
            }
            let name = trim_str(left);
            let path = trim_str(right);
            (name, path)
        } else {
            let p = trim_str(line.as_str());
            let n = dir_name(p.as_str());
            if n.as_str().unicode_len() == 0 {
                proof {
                    assert(line_entry(lv[i as int]) == Err::<
                        (Seq<char>, Seq<char>),
                        DirectoryErrorView,
                    >(DirectoryErrorView::NoDirName { dir: p@ }));
                    assert(parse_dirs_from(lv, i as int, accv) == Err::<
                        Seq<(Seq<char>, Seq<char>)>,
                        DirectoryErrorView,
                    >(DirectoryErrorView::NoDirName { dir: p@ }));
                }
                return Err(ParseDirectoryError::NoDirName { dir: p });
            }
            (n, p)
        };
        let ghost env = (entry.0@, entry.1@);
        proof {
            assert(line_entry(lv[i as int]) == Ok::<
                (Seq<char>, Seq<char>),
                DirectoryErrorView,
            >(env));
        }
        // check for a duplicated name
        match find_name_pos(&entries, entry.0.as_str()) {
            Some(k) => {
                proof {
                    assert(accv[k as int] == (entries@[k as int].0@, entries@[k as int].1@));
                }
                let prev = entries[k].1.clone();
                proof {
                    assert(prev@ == accv[k as int].1);
                    assert(parse_dirs_from(lv, i as int, accv) == Err::<
                        Seq<(Seq<char>, Seq<char>)>,
                        DirectoryErrorView,
                    >(
                        DirectoryErrorView::DuplicateName {
                            name: env.0,
                            values: (accv[k as int].1, env.1),
                        },
                    ));
                }
                return Err(
                    ParseDirectoryError::DuplicateName {
                        name: entry.0,
                        values: (prev, entry.1),
                    },
                );
            },
            None => {},
        }
        let ghost before = entries.deep_view();
        entries.push(entry);
        proof {
            lemma_entry_index_none(before, env.0);
            assert(entries.deep_view().len() == entries@.len());
            assert(entries.deep_view() =~~= before.push(env));
        }
        i = i + 1;
    }
    let d = Directories { entries };
    proof {
        assert(parse_dirs_from(lv, lines.len() as int, d.entries.deep_view()) == Ok::<
            Seq<(Seq<char>, Seq<char>)>,
            DirectoryErrorView,
        >(d.entries.deep_view()));
    }
    Ok(d)
}

} // verus!
