use vstd::prelude::*;
use crate::strutil::{push_char, split_spec, split_str, str_eq};

verus! {

// ---------------------------------------------------------------------------
// Home-directory expansion
// ---------------------------------------------------------------------------

/// A path starts with a tilde component when it is `~` alone or begins with
/// `~/`; a name such as `~backup` is not tilde-prefixed.
pub open spec fn tilde_prefixed(p: Seq<char>) -> bool {
    p.len() >= 2 && p[0] == '~' && p[1] == '/'
}

/// Joining `home` and a relative remainder, inserting a separator only when
/// `home` does not already end with one.
pub open spec fn join_home(home: Seq<char>, rest: Seq<char>) -> Seq<char> {
    if home.len() > 0 && home.last() == '/' {
        home + rest
    } else {
        home + seq!['/'] + rest
    }
}

/// What tilde expansion returns: `~` alone becomes the home directory, a
/// `~/rest` path is joined onto it, and every other path is left unchanged.
/// When the home directory is the filesystem root, the tilde is dropped
/// rather than doubling the separator.
pub open spec fn expand_tilde_spec(p: Seq<char>, home: Seq<char>) -> Seq<char> {
    if p == seq!['~'] {
        home
    } else if tilde_prefixed(p) {
        if home == seq!['/'] {
            p.drop_first()
        } else {
            join_home(home, p.subrange(2, p.len() as int))
        }
    } else {
        p
    }
}

/// Expands a leading `~` in `path` against the given home directory.
pub fn expand_tilde(path: &str, home: &str) -> (r: String)
    ensures
        r@ == expand_tilde_spec(path@, home@),
{
    let len = path.unicode_len();
    if len == 1 && path.get_char(0) == '~' {
        proof {
            assert(path@ =~= seq!['~']);
        }
        return home.to_owned();
    }
    proof {
        assert(path@ != seq!['~']);
    }
    if len >= 2 && path.get_char(0) == '~' && path.get_char(1) == '/' {
        let hlen = home.unicode_len();
        if hlen == 1 && home.get_char(0) == '/' {
            proof {
                assert(home@ =~= seq!['/']);
            }
            let r = path.substring_char(1, len);
            proof {
                assert(r@ =~= path@.drop_first());
            }
            return r.to_owned();
        }
        proof {
            assert(home@ != seq!['/']);
        }
        let rest = path.substring_char(2, len);
        let mut out = home.to_owned();
        if !(hlen > 0 && home.get_char(hlen - 1) == '/') {
            push_char(&mut out, '/');
        }
        out.append(rest);
        proof {
            assert(out@ =~= expand_tilde_spec(path@, home@));
        }
        return out;
    }
    path.to_owned()
}

/// Expanding `~` alone yields the home directory unchanged, and `~/rest`
/// yields the home directory joined with `rest`.
pub proof fn lemma_expand_tilde_home(home: Seq<char>, rest: Seq<char>)
    ensures
        expand_tilde_spec(seq!['~'], home) == home,
        home != seq!['/'] ==> expand_tilde_spec(seq!['~', '/'] + rest, home) == join_home(
            home,
            rest,
        ),
{
    let p = seq!['~', '/'] + rest;
    assert(p.subrange(2, p.len() as int) =~= rest);
    assert(p != seq!['~']);
}

// ---------------------------------------------------------------------------
// Deriving a name from a path
// ---------------------------------------------------------------------------

/// A path component that names a directory: non-empty and not the no-op
/// component `.`.
pub open spec fn normal_component(f: Seq<char>) -> bool {
    f.len() > 0 && f != seq!['.']
}

/// The final path component, as `dir_name` returns it: the last normal
/// component of the path, or the empty string when there is none or when the
/// path ends in a parent step `..`.
pub open spec fn dir_name_spec(p: Seq<char>) -> Seq<char> {
    let comps = split_spec(p, '/').filter(|f: Seq<char>| normal_component(f));
    if comps.len() == 0 {
        Seq::<char>::empty()
    } else if comps.last() == seq!['.', '.'] {
        Seq::<char>::empty()
    } else {
        comps.last()
    }
}

/// Returns the final path component as a name; the empty string when the path
/// has no usable final component (for example the root path).
pub fn dir_name(path: &str) -> (r: String)
    ensures
        r@ == dir_name_spec(path@),
{
    let fields = split_str(path, '/');
    let ghost pred = |f: Seq<char>| normal_component(f);
    let ghost all = split_spec(path@, '/');
    let mut last: Option<String> = None;
    let mut i: usize = 0;
    proof {
        assert(all.take(0) =~= Seq::<Seq<char>>::empty());
        assert(all.take(0).filter(pred) =~= Seq::<Seq<char>>::empty());
    }
    while i < fields.len()
        invariant
            i <= fields.len(),
            fields.deep_view() == all,
            pred == (|f: Seq<char>| normal_component(f)),
            match last {
                Some(l) => all.take(i as int).filter(pred).len() > 0 && l@ == all.take(
                    i as int,
                ).filter(pred).last(),
                None => all.take(i as int).filter(pred).len() == 0,
            },
        decreases fields.len() - i,
    {
        let f = &fields[i];
        proof {
            assert(all.take(i + 1).drop_last() =~= all.take(i as int));
            assert(all.take(i + 1).last() == f@);
            reveal_with_fuel(Seq::filter, 2);
            assert(all.take(i + 1).filter(pred) == if pred(f@) {
                all.take(i as int).filter(pred).push(f@)
            } else {
                all.take(i as int).filter(pred)
            });
        }
        let flen = f.unicode_len();
        let keep = if flen == 0 {
            false
        } else if flen == 1 && f.as_str().get_char(0) == '.' {
            proof {
                assert(f@ =~= seq!['.']);
            }
            false
        } else {
            proof {
                assert(f@ != seq!['.']);
            }
            true
        };
        if keep {
            last = Some(f.clone());
        }
        i = i + 1;
    }
    proof {
        assert(all.take(fields.len() as int) =~= all);
    }
    match last {
        None => String::new(),
        Some(l) => {
            let llen = l.as_str().unicode_len();
            if llen == 2 && l.as_str().get_char(0) == '.' && l.as_str().get_char(1) == '.' {
                proof {
                    assert(l@ =~= seq!['.', '.']);
                }
                String::new()
            } else {
                proof {
                    assert(l@ != seq!['.', '.']);
                }
                l
            }
        },
    }
}

// ---------------------------------------------------------------------------
// Display-format substitution
// ---------------------------------------------------------------------------

/// Replaces every non-overlapping occurrence of `{}` in `s` with `name`,
/// scanning left to right.
pub open spec fn replace_braces_spec(s: Seq<char>, name: Seq<char>) -> Seq<char>
    decreases s.len(),
{
    if s.len() < 2 {
        s
    } else if s[0] == '{' && s[1] == '}' {
        name + replace_braces_spec(s.skip(2), name)
    } else {
        seq![s[0]] + replace_braces_spec(s.skip(1), name)
    }
}

/// Formats `name` through an optional user format string in which `{}` stands
/// for the name; without a format the name is returned unchanged.
pub fn format_name(user_fmt: Option<&str>, name: &str) -> (r: String)
    ensures
        match user_fmt {
            None => r@ == name@,
            Some(f) => r@ == replace_braces_spec(f@, name@),
        },
{
    let f = match user_fmt {
        None => {
            return name.to_owned();
        },
        Some(f) => f,
    };
    let len = f.unicode_len();
    let mut out = String::new();
    let mut i: usize = 0;
    proof {
        assert(f@.skip(0) =~= f@);
        assert(out@ + replace_braces_spec(f@, name@) =~= replace_braces_spec(f@, name@));
    }
    while i < len
        invariant
            i <= len,
            len == f@.len(),
            out@ + replace_braces_spec(f@.skip(i as int), name@) == replace_braces_spec(
                f@,
                name@,
            ),
        decreases len - i,
    {
        let ghost suf = f@.skip(i as int);
        proof {
            assert(suf[0] == f@[i as int]);
        }
        if i + 1 < len && f.get_char(i) == '{' && f.get_char(i + 1) == '}' {
            proof {
                assert(suf[1] == f@[i + 1]);
                assert(suf.skip(2) =~= f@.skip(i + 2));
                assert(out@ + (name@ + replace_braces_spec(f@.skip(i + 2), name@)) =~= (out@
                    + name@) + replace_braces_spec(f@.skip(i + 2), name@));
            }
            out.append(name);
            i = i + 2;
        } else {
            let c = f.get_char(i);
            proof {
                if suf.len() >= 2 {
                    assert(suf[1] == f@[i + 1]);
                }
                assert(suf.skip(1) =~= f@.skip(i + 1));
                assert(out@ + (seq![f@[i as int]] + replace_braces_spec(f@.skip(i + 1), name@))
                    =~= out@.push(f@[i as int]) + replace_braces_spec(f@.skip(i + 1), name@));
            }
            push_char(&mut out, c);
            i = i + 1;
        }
    }
    proof {
        assert(f@.skip(len as int) =~= Seq::<char>::empty());
        assert(out@ + Seq::<char>::empty() =~= out@);
    }
    out
}

// ---------------------------------------------------------------------------
// Conditional application
// ---------------------------------------------------------------------------

/// Applies `predicate` to `base` and `data` if `data` is `Some`, otherwise
/// returns `base`.  Useful for conditionally applying transformations.
pub fn apply_if_some<B, D, F: Fn(B, D) -> B>(base: B, data: Option<D>, predicate: F) -> (r: B)
    requires
        data matches Some(d) ==> call_requires(predicate, (base, d)),
    ensures
        data is None ==> r == base,
        data matches Some(d) ==> call_ensures(predicate, (base, d), r),
{
    match data {
        Some(d) => predicate(base, d),
        None => base,
    }
}

// ---------------------------------------------------------------------------
// Shell escaping
// ---------------------------------------------------------------------------

/// How one character is written inside a double-quoted shell string: a
/// backslash or double quote gets a backslash put before it.
pub open spec fn escape_char(c: char) -> Seq<char> {
    if c == '\\' || c == '"' {
        seq!['\\', c]
    } else {
        seq![c]
    }
}

/// The whole string escaped for inclusion inside double quotes.
pub open spec fn escape_spec(s: Seq<char>) -> Seq<char>
    decreases s.len(),
{
    if s.len() == 0 {
        Seq::<char>::empty()
    } else {
        escape_char(s[0]) + escape_spec(s.drop_first())
    }
}

/// Escapes backslash and double-quote characters so that `s` can stand inside
/// a double-quoted shell string as a single token.
pub fn escape_shell_arg(s: &str) -> (r: String)
    ensures
        r@ == escape_spec(s@),
{
    let len = s.unicode_len();
    let mut out = String::new();
    let mut i: usize = 0;
    proof {
        assert(s@.skip(0) =~= s@);
        assert(out@ + escape_spec(s@) =~= escape_spec(s@));
    }
    while i < len
        invariant
            i <= len,
            len == s@.len(),
            out@ + escape_spec(s@.skip(i as int)) == escape_spec(s@),
        decreases len - i,
    {
        let c = s.get_char(i);
        let ghost suf = s@.skip(i as int);
        proof {
            assert(suf[0] == s@[i as int]);
            assert(suf.drop_first() =~= s@.skip(i + 1));
        }
        if c == '\\' || c == '"' {
            push_char(&mut out, '\\');
            push_char(&mut out, c);
        } else {
            push_char(&mut out, c);
        }
        proof {
            assert(out@ + escape_spec(s@.skip(i + 1)) =~= escape_spec(s@));
        }
        i = i + 1;
    }
    proof {
        assert(s@.skip(len as int) =~= Seq::<char>::empty());
        assert(out@ + Seq::<char>::empty() =~= out@);
    }
    out
}

/// How a double-quoted shell string is read back: a backslash makes the next
/// character literal.
pub open spec fn unescape_spec(s: Seq<char>) -> Seq<char>
    decreases s.len(),
{
    if s.len() == 0 {
        Seq::<char>::empty()
    } else if s[0] == '\\' && s.len() >= 2 {
        seq![s[1]] + unescape_spec(s.skip(2))
    } else {
        seq![s[0]] + unescape_spec(s.skip(1))
    }
}

/// Escaping never loses information: reading the escaped string back as a
/// double-quoted shell token yields the original characters.
pub proof fn lemma_escape_round_trip(s: Seq<char>)
    ensures
        unescape_spec(escape_spec(s)) == s,
    decreases s.len(),
{
    if s.len() == 0 {
    } else {
        lemma_escape_round_trip(s.drop_first());
        let e = escape_spec(s);
        let c = s[0];
        if c == '\\' || c == '"' {
            assert(e[0] == '\\');
            assert(e[1] == c);
            assert(e.skip(2) =~= escape_spec(s.drop_first()));
            assert(seq![c] + s.drop_first() =~= s);
        } else {
            assert(e[0] == c);
            assert(e.skip(1) =~= escape_spec(s.drop_first()));
            assert(seq![c] + s.drop_first() =~= s);
        }
    }
}

} // verus!
