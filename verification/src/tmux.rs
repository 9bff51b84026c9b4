use vstd::prelude::*;
use vstd::assert_by_contradiction;
use crate::strutil::{dec_digit, dec_digits, push_char, str_eq, usize_to_string};

verus! {

// ---------------------------------------------------------------------------
// Primitive multiplexer commands
// ---------------------------------------------------------------------------

/// One primitive command of the multiplexer, as plain data.  A compiled
/// session layout is an ordered batch of these; running the batch is the
/// caller's concern.
#[derive(Debug, Clone)]
pub enum TmuxPrimitive {
    NewSession { name: String, start_directory: Option<String>, detached: bool },
    AttachSession { name: String },
    SwitchClient { name: String },
    RenameWindow { name: String },
    NewWindow { name: Option<String>, start_directory: Option<String> },
    SplitWindow { start_directory: Option<String> },
    SelectLayout { layout: Option<String> },
    SendKeys { text: String },
}

/// The mathematical shape of a primitive command, with every string a
/// character sequence.
#[verifier::ext_equal]
pub enum PrimitiveView {
    NewSession { name: Seq<char>, start_directory: Option<Seq<char>>, detached: bool },
    AttachSession { name: Seq<char> },
    SwitchClient { name: Seq<char> },
    RenameWindow { name: Seq<char> },
    NewWindow { name: Option<Seq<char>>, start_directory: Option<Seq<char>> },
    SplitWindow { start_directory: Option<Seq<char>> },
    SelectLayout { layout: Option<Seq<char>> },
    SendKeys { text: Seq<char> },
}

impl DeepView for TmuxPrimitive {
    type V = PrimitiveView;

    open spec fn deep_view(&self) -> PrimitiveView {
        match self {
            TmuxPrimitive::NewSession { name, start_directory, detached } =>
                PrimitiveView::NewSession {
                    name: name@,
                    start_directory: start_directory.deep_view(),
                    detached: *detached,
                },
            TmuxPrimitive::AttachSession { name } => PrimitiveView::AttachSession { name: name@ },
            TmuxPrimitive::SwitchClient { name } => PrimitiveView::SwitchClient { name: name@ },
            TmuxPrimitive::RenameWindow { name } => PrimitiveView::RenameWindow { name: name@ },
            TmuxPrimitive::NewWindow { name, start_directory } => PrimitiveView::NewWindow {
                name: name.deep_view(),
                start_directory: start_directory.deep_view(),
            },
            TmuxPrimitive::SplitWindow { start_directory } => PrimitiveView::SplitWindow {
                start_directory: start_directory.deep_view(),
            },
            TmuxPrimitive::SelectLayout { layout } => PrimitiveView::SelectLayout {
                layout: layout.deep_view(),
            },
            TmuxPrimitive::SendKeys { text } => PrimitiveView::SendKeys { text: text@ },
        }
    }
}

/// The command that brings the caller's terminal to a session: from inside a
/// running multiplexer client the client is switched, otherwise the session
/// is attached.
pub open spec fn attach_spec(name: Seq<char>, inside_tmux: bool) -> PrimitiveView {
    if inside_tmux {
        PrimitiveView::SwitchClient { name }
    } else {
        PrimitiveView::AttachSession { name }
    }
}

pub fn attach(name: &str, inside_tmux: bool) -> (r: TmuxPrimitive)
    ensures
        r.deep_view() == attach_spec(name@, inside_tmux),
{
    if inside_tmux {
        TmuxPrimitive::SwitchClient { name: name.to_owned() }
    } else {
        TmuxPrimitive::AttachSession { name: name.to_owned() }
    }
}

// ---------------------------------------------------------------------------
// Collision-free session names
// ---------------------------------------------------------------------------

/// The candidate session names tried in order: the base name itself, then
/// `base(1)`, `base(2)`, and so on.
pub open spec fn candidate_name(base: Seq<char>, i: nat) -> Seq<char> {
    if i == 0 {
        base
    } else {
        base + seq!['('] + dec_digits(i) + seq![')']
    }
}

proof fn lemma_dec_digits_len(n: nat)
    ensures
        dec_digits(n).len() >= 1,
        n >= 10 ==> dec_digits(n).len() >= 2,
    decreases n,
{
    if n >= 10 {
        lemma_dec_digits_len(n / 10);
    }
}

proof fn lemma_dec_digits_injective(a: nat, b: nat)
    requires
        dec_digits(a) == dec_digits(b),
    ensures
        a == b,
    decreases a,
{
    lemma_dec_digits_len(a);
    lemma_dec_digits_len(b);
    if a < 10 && b < 10 {
        assert(dec_digits(a)[0] == dec_digit(a));
        assert(dec_digits(b)[0] == dec_digit(b));
        assert(dec_digits(a)[0] == dec_digits(b)[0]);
        assert(dec_digit(a) == dec_digit(b));
    } else if a < 10 && b >= 10 {
        assert(dec_digits(a).len() == 1);
        assert(dec_digits(b).len() >= 2);
    } else if a >= 10 && b < 10 {
        assert(dec_digits(a).len() >= 2);
        assert(dec_digits(b).len() == 1);
    } else {
        assert(dec_digits(a).last() == dec_digits(b).last());
        assert(dec_digits(a).drop_last() =~= dec_digits(a / 10));
        assert(dec_digits(b).drop_last() =~= dec_digits(b / 10));
        lemma_dec_digits_injective(a / 10, b / 10);
        assert(dec_digits(a).last() == dec_digit(a % 10));
        assert(dec_digits(b).last() == dec_digit(b % 10));
        assert(a % 10 < 10 && b % 10 < 10);
        assert(a % 10 == b % 10);
        assert(a == 10 * (a / 10) + a % 10) by {
            vstd::arithmetic::div_mod::lemma_fundamental_div_mod(a as int, 10);
        }
        assert(b == 10 * (b / 10) + b % 10) by {
            vstd::arithmetic::div_mod::lemma_fundamental_div_mod(b as int, 10);
        }
    }
}

proof fn lemma_candidate_injective(base: Seq<char>, i: nat, j: nat)
    requires
        candidate_name(base, i) == candidate_name(base, j),
    ensures
        i == j,
{
    lemma_dec_digits_len(i);
    lemma_dec_digits_len(j);
    if i == 0 && j != 0 {
        assert(candidate_name(base, j).len() > base.len());
    } else if i != 0 && j == 0 {
        assert(candidate_name(base, i).len() > base.len());
    } else if i != 0 && j != 0 {
        let ci = candidate_name(base, i);
        let cj = candidate_name(base, j);
        assert(ci.len() == base.len() + 2 + dec_digits(i).len());
        assert(cj.len() == base.len() + 2 + dec_digits(j).len());
        assert(dec_digits(i) =~= ci.subrange(base.len() as int + 1, ci.len() as int - 1));
        assert(dec_digits(j) =~= cj.subrange(base.len() as int + 1, cj.len() as int - 1));
        lemma_dec_digits_injective(i, j);
    }
}

/// Whether a name occurs among the live session names.
pub open spec fn name_used(n: Seq<char>, used: Seq<Seq<char>>) -> bool {
    used.contains(n)
}

/// Among the candidates from the base name up to as many tries as there are
/// live names, at least one is free: the candidates are pairwise distinct, so
/// they cannot all be taken.
proof fn lemma_some_candidate_unused(base: Seq<char>, used: Seq<Seq<char>>)
    ensures
        exists|i: nat|
            i <= used.len() && !name_used(#[trigger] candidate_name(base, i), used),
{
    assert_by_contradiction!(
        exists|i: nat| i <= used.len() && !name_used(#[trigger] candidate_name(base, i), used),
        {
            let m = used.len() as int;
            let cands = Seq::<Seq<char>>::new(
                (m + 1) as nat,
                |i: int| candidate_name(base, i as nat),
            );
            assert forall|p: int, q: int|
                0 <= p < cands.len() && 0 <= q < cands.len() && p != q implies cands[p]
                != cands[q] by {
                if cands[p] == cands[q] {
                    lemma_candidate_injective(base, p as nat, q as nat);
                }
            }
            assert(cands.no_duplicates());
            cands.unique_seq_to_set();
            assert(cands.to_set().len() == m + 1);
            assert(cands.to_set().subset_of(used.to_set())) by {
                assert forall|x: Seq<char>| cands.to_set().contains(x)
                    implies used.to_set().contains(x) by {
                    let i = choose|i: int| 0 <= i < cands.len() && cands[i] == x;
                    assert(!(i as nat <= used.len() && !name_used(
                        candidate_name(base, i as nat),
                        used,
                    )));
                    assert(name_used(candidate_name(base, i as nat), used));
                    let k = choose|k: int| 0 <= k < used.len() && used[k] == x;
                    assert(used.to_set().contains(used[k]));
                }
            }
            used.lemma_cardinality_of_set();
            vstd::set_lib::lemma_len_subset(cands.to_set(), used.to_set());
        }
    );
}

/// Writes the `i`-th candidate session name for a base name.
pub fn numbered_candidate(base: &str, i: usize) -> (r: String)
    ensures
        r@ == candidate_name(base@, i as nat),
{
    if i == 0 {
        base.to_owned()
    } else {
        let mut s = base.to_owned();
        push_char(&mut s, '(');
        let digits = usize_to_string(i);
        s.append(digits.as_str());
        push_char(&mut s, ')');
        proof {
            assert(s@ =~= candidate_name(base@, i as nat));
        }
        s
    }
}

/// Whether `s` occurs in the list of names.
pub fn contains_name(names: &Vec<String>, s: &str) -> (r: bool)
    ensures
        r == name_used(s@, names.deep_view()),
{
    let mut k: usize = 0;
    while k < names.len()
        invariant
            k <= names.len(),
            forall|j: int| 0 <= j < k ==> names.deep_view()[j] != s@,
        decreases names.len() - k,
    {
        if str_eq(names[k].as_str(), s) {
            proof {
                assert(names.deep_view()[k as int] == s@);
            }
            return true;
        }
        k = k + 1;
    }
    proof {
        assert(!names.deep_view().contains(s@));
    }
    false
}

/// Picks the first candidate name, counting up from the base name, that does
/// not occur among the live session names in `used`.
pub fn get_unused_name(name: &str, used: &Vec<String>) -> (r: String)
    ensures
        exists|i: nat|
            {
                &&& i <= used.len()
                &&& r@ == #[trigger] candidate_name(name@, i)
                &&& forall|j: nat|
                    j < i ==> name_used(#[trigger] candidate_name(name@, j), used.deep_view())
                &&& !name_used(r@, used.deep_view())
            },
{
    let m = used.len();
    let mut i: usize = 0;
    loop
        invariant
            i <= m,
            m == used.len(),
            forall|j: nat|
                j < i ==> name_used(#[trigger] candidate_name(name@, j), used.deep_view()),
        decreases m - i,
    {
        let cand = numbered_candidate(name, i);
        if !contains_name(used, cand.as_str()) {
            proof {
                let wi = i as nat;
                assert(wi <= used.len());
                assert(cand@ == candidate_name(name@, wi));
            }
            return cand;
        }
        if i == m {
            proof {
                assert forall|j: nat| j <= used.deep_view().len() implies name_used(
                    #[trigger] candidate_name(name@, j),
                    used.deep_view(),
                ) by {
                    if j < i as nat {
                    } else {
                        assert(candidate_name(name@, j) == cand@);
                    }
                }
                lemma_some_candidate_unused(name@, used.deep_view());
                assert(false);
            }
            unreached()
        }
        i = i + 1;
    }
}

} // verus!
