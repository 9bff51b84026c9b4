use vstd::prelude::*;
use crate::tmux::{PrimitiveView, TmuxPrimitive};

verus! {

// ---------------------------------------------------------------------------
// The declarative layout model
// ---------------------------------------------------------------------------

/// One declared window: an optional display name, an optional layout string,
/// and an ordered list of pane commands.  An empty pane command means "just
/// open a shell".
#[derive(Debug, Clone)]
pub struct Window {
    pub name: Option<String>,
    pub layout: Option<String>,
    pub panes: Vec<String>,
}

/// The mathematical shape of a window.
#[verifier::ext_equal]
pub struct WindowView {
    pub name: Option<Seq<char>>,
    pub layout: Option<Seq<char>>,
    pub panes: Seq<Seq<char>>,
}

impl DeepView for Window {
    type V = WindowView;

    open spec fn deep_view(&self) -> WindowView {
        WindowView {
            name: self.name.deep_view(),
            layout: self.layout.deep_view(),
            panes: self.panes.deep_view(),
        }
    }
}

/// A reusable named list of windows; hidden templates are left out of
/// default listings.
#[derive(Debug, Clone)]
pub struct Template {
    pub name: String,
    pub hidden: Option<bool>,
    pub windows: Vec<Window>,
}

/// The mathematical shape of a template.
#[verifier::ext_equal]
pub struct TemplateView {
    pub name: Seq<char>,
    pub hidden: Option<bool>,
    pub windows: Seq<WindowView>,
}

impl DeepView for Template {
    type V = TemplateView;

    open spec fn deep_view(&self) -> TemplateView {
        TemplateView {
            name: self.name@,
            hidden: self.hidden,
            windows: self.windows.deep_view(),
        }
    }
}

// ---------------------------------------------------------------------------
// Cloning helpers with exact contracts
// ---------------------------------------------------------------------------

pub fn clone_opt_string(o: &Option<String>) -> (r: Option<String>)
    ensures
        r.deep_view() == o.deep_view(),
{
    match o {
        Some(s) => Some(s.clone()),
        None => None,
    }
}

pub fn clone_string_vec(v: &Vec<String>) -> (r: Vec<String>)
    ensures
        r.deep_view() == v.deep_view(),
{
    let mut r: Vec<String> = Vec::new();
    let mut i: usize = 0;
    proof {
        assert(v.deep_view().len() == v.len());
    }
    while i < v.len()
        invariant
            i <= v.len(),
            r.len() == i,
            v.deep_view().len() == v.len(),
            r.deep_view() == v.deep_view().take(i as int),
        decreases v.len() - i,
    {
        r.push(v[i].clone());
        proof {
            assert(r.deep_view() =~~= v.deep_view().take(i + 1));
        }
        i = i + 1;
    }
    proof {
        assert(v.deep_view().take(v.len() as int) =~= v.deep_view());
    }
    r
}

pub fn clone_window(w: &Window) -> (r: Window)
    ensures
        r.deep_view() == w.deep_view(),
{
    Window {
        name: clone_opt_string(&w.name),
        layout: clone_opt_string(&w.layout),
        panes: clone_string_vec(&w.panes),
    }
}

pub fn clone_windows(v: &Vec<Window>) -> (r: Vec<Window>)
    ensures
        r.deep_view() == v.deep_view(),
{
    let mut r: Vec<Window> = Vec::new();
    let mut i: usize = 0;
    proof {
        assert(v.deep_view().len() == v.len());
    }
    while i < v.len()
        invariant
            i <= v.len(),
            r.len() == i,
            v.deep_view().len() == v.len(),
            r.deep_view() == v.deep_view().take(i as int),
        decreases v.len() - i,
    {
        let w = clone_window(&v[i]);
        r.push(w);
        proof {
            assert(r.deep_view() =~~= v.deep_view().take(i + 1));
        }
        i = i + 1;
    }
    proof {
        assert(v.deep_view().take(v.len() as int) =~= v.deep_view());
    }
    r
}

// ---------------------------------------------------------------------------
// The command compiler
// ---------------------------------------------------------------------------

/// The window-identity commands of the window at `idx`: the first window of a
/// fresh session already exists, so it is only renamed, and only when the
/// window declares a name; every later window is created, carrying the
/// override directory when one is given.
pub open spec fn window_identity_cmds(
    idx: int,
    w: WindowView,
    dir: Option<Seq<char>>,
) -> Seq<PrimitiveView> {
    if idx == 0 {
        match w.name {
            Some(n) => seq![PrimitiveView::RenameWindow { name: n }],
            None => Seq::<PrimitiveView>::empty(),
        }
    } else {
        seq![PrimitiveView::NewWindow { name: w.name, start_directory: dir }]
    }
}

/// The commands of the pane at index `j`: the window's first pane already
/// exists, so only later panes are split off; the pane's command, if any, is
/// then typed into the current pane.
pub open spec fn pane_cmds(j: int, cmd: Seq<char>, dir: Option<Seq<char>>) -> Seq<PrimitiveView> {
    let split = if j == 0 {
        Seq::<PrimitiveView>::empty()
    } else {
        seq![PrimitiveView::SplitWindow { start_directory: dir }]
    };
    let send = if cmd.len() == 0 {
        Seq::<PrimitiveView>::empty()
    } else {
        seq![PrimitiveView::SendKeys { text: cmd }]
    };
    split + send
}

/// The commands of all panes of one window, in pane order.
pub open spec fn panes_cmds(panes: Seq<Seq<char>>, dir: Option<Seq<char>>) -> Seq<PrimitiveView>
    decreases panes.len(),
{
    if panes.len() == 0 {
        Seq::<PrimitiveView>::empty()
    } else {
        panes_cmds(panes.drop_last(), dir) + pane_cmds(
            panes.len() - 1,
            panes.last(),
            dir,
        )
    }
}

/// The layout command of a window: a declared layout is applied after all
/// panes exist, so that pane creation cannot override it.
pub open spec fn layout_cmds(layout: Option<Seq<char>>) -> Seq<PrimitiveView> {
    match layout {
        Some(l) => seq![PrimitiveView::SelectLayout { layout: Some(l) }],
        None => Seq::<PrimitiveView>::empty(),
    }
}

/// Everything the window at `idx` contributes to the batch.
pub open spec fn window_cmds(idx: int, w: WindowView, dir: Option<Seq<char>>) -> Seq<
    PrimitiveView,
> {
    window_identity_cmds(idx, w, dir) + panes_cmds(w.panes, dir) + layout_cmds(w.layout)
}

/// The whole compiled batch of a window list.
pub open spec fn windows_cmds(windows: Seq<WindowView>, dir: Option<Seq<char>>) -> Seq<
    PrimitiveView,
>
    decreases windows.len(),
{
    if windows.len() == 0 {
        Seq::<PrimitiveView>::empty()
    } else {
        windows_cmds(windows.drop_last(), dir) + window_cmds(
            windows.len() - 1,
            windows.last(),
            dir,
        )
    }
}

/// The window-identity command of one window, if it has one.
pub fn build_tmux_command(window_idx: usize, window: &Window, dir: &Option<String>) -> (r: Option<
    TmuxPrimitive,
>)
    ensures
        (match r {
            Some(p) => seq![p.deep_view()],
            None => Seq::<PrimitiveView>::empty(),
        }) == window_identity_cmds(window_idx as int, window.deep_view(), dir.deep_view()),
{
    if window_idx == 0 {
        match &window.name {
            Some(n) => Some(TmuxPrimitive::RenameWindow { name: n.clone() }),
            None => None,
        }
    } else {
        Some(
            TmuxPrimitive::NewWindow {
                name: clone_opt_string(&window.name),
                start_directory: clone_opt_string(dir),
            },
        )
    }
}

/// Appends the pane commands of one window to the batch.
pub fn add_panes_to_tmux(batch: &mut Vec<TmuxPrimitive>, panes: &Vec<String>, dir: &Option<String>)
    ensures
        final(batch).deep_view() == old(batch).deep_view() + panes_cmds(
            panes.deep_view(),
            dir.deep_view(),
        ),
{
    let mut j: usize = 0;
    proof {
        assert(panes.deep_view().len() == panes.len());
        assert(panes.deep_view().take(0) =~= Seq::<Seq<char>>::empty());
        assert(batch.deep_view() =~= batch.deep_view() + panes_cmds(
            panes.deep_view().take(0),
            dir.deep_view(),
        ));
    }
    while j < panes.len()
        invariant
            j <= panes.len(),
            panes.deep_view().len() == panes.len(),
            batch.deep_view() == old(batch).deep_view() + panes_cmds(
                panes.deep_view().take(j as int),
                dir.deep_view(),
            ),
        decreases panes.len() - j,
    {
        let ghost prefix = panes.deep_view().take(j as int);
        let ghost b0 = batch.deep_view();
        proof {
            assert(panes.deep_view().take(j + 1).drop_last() =~= prefix);
            assert(panes.deep_view().take(j + 1).last() == panes.deep_view()[j as int]);
        }
        if j > 0 {
            let p = TmuxPrimitive::SplitWindow { start_directory: clone_opt_string(dir) };
            let ghost pv = p.deep_view();
            batch.push(p);
            proof {
                assert(batch.deep_view().len() == batch@.len());
                assert(batch.deep_view() =~= b0 + seq![pv]);
            }
        }
        let ghost b1 = batch.deep_view();
        let cmd = &panes[j];
        proof {
            assert(cmd@ == panes.deep_view()[j as int]);
        }
        if cmd.as_str().unicode_len() > 0 {
            let p = TmuxPrimitive::SendKeys { text: cmd.clone() };
            let ghost pv = p.deep_view();
            batch.push(p);
            proof {
                assert(batch.deep_view().len() == batch@.len());
                assert(batch.deep_view() =~= b1 + seq![pv]);
            }
        }
        proof {
            assert(panes_cmds(panes.deep_view().take(j + 1), dir.deep_view()) == panes_cmds(
                prefix,
                dir.deep_view(),
            ) + pane_cmds(j as int, panes.deep_view()[j as int], dir.deep_view()));
            assert(batch.deep_view() =~= old(batch).deep_view() + panes_cmds(
                panes.deep_view().take(j + 1),
                dir.deep_view(),
            ));
        }
        j = j + 1;
    }
    proof {
        assert(panes.deep_view().take(panes.len() as int) =~= panes.deep_view());
    }
}

/// Compiles a window list into the ordered batch of primitive commands that
/// materializes it, window by window and pane by pane.
pub fn apply_windows(windows: &Vec<Window>, dir: &Option<String>) -> (r: Vec<TmuxPrimitive>)
    ensures
        r.deep_view() == windows_cmds(windows.deep_view(), dir.deep_view()),
{
    let mut batch: Vec<TmuxPrimitive> = Vec::new();
    let mut i: usize = 0;
    proof {
        assert(windows.deep_view().len() == windows.len());
        assert(windows.deep_view().take(0) =~= Seq::<WindowView>::empty());
        assert(batch.deep_view() =~= windows_cmds(windows.deep_view().take(0), dir.deep_view()));
    }
    while i < windows.len()
        invariant
            i <= windows.len(),
            windows.deep_view().len() == windows.len(),
            batch.deep_view() == windows_cmds(windows.deep_view().take(i as int), dir.deep_view()),
        decreases windows.len() - i,
    {
        let ghost prefix = windows.deep_view().take(i as int);
        proof {
            assert(windows.deep_view().take(i + 1).drop_last() =~= prefix);
            assert(windows.deep_view().take(i + 1).last() == windows.deep_view()[i as int]);
        }
        let window = &windows[i];
        let ghost wv = windows.deep_view()[i as int];
        proof {
            assert(window.deep_view() == wv);
        }
        let ghost batch0 = batch.deep_view();
        if let Some(p) = build_tmux_command(i, window, dir) {
            let ghost pv = p.deep_view();
            batch.push(p);
            proof {
                assert(batch.deep_view().len() == batch@.len());
                assert(batch.deep_view() =~= batch0 + seq![pv]);
            }
        }
        proof {
            assert(batch.deep_view() =~= batch0 + window_identity_cmds(
                i as int,
                wv,
                dir.deep_view(),
            ));
        }
        let ghost b1 = batch.deep_view();
        add_panes_to_tmux(&mut batch, &window.panes, dir);
        proof {
            assert(batch.deep_view() == b1 + panes_cmds(wv.panes, dir.deep_view()));
        }
        let ghost b2 = batch.deep_view();
        match &window.layout {
            Some(l) => {
                let p = TmuxPrimitive::SelectLayout { layout: Some(l.clone()) };
                let ghost pv = p.deep_view();
                batch.push(p);
                proof {
                    assert(batch.deep_view().len() == batch@.len());
                    assert(batch.deep_view() =~= b2 + seq![pv]);
                }
            },
            None => {},
        }
        proof {
            assert(batch.deep_view() =~= b2 + layout_cmds(wv.layout));
            assert(batch.deep_view() =~= batch0 + window_cmds(i as int, wv, dir.deep_view()));
            assert(windows_cmds(windows.deep_view().take(i + 1), dir.deep_view()) == windows_cmds(
                prefix,
                dir.deep_view(),
            ) + window_cmds(i as int, wv, dir.deep_view()));
            assert(batch.deep_view() =~= windows_cmds(
                windows.deep_view().take(i + 1),
                dir.deep_view(),
            ));
        }
        i = i + 1;
    }
    proof {
        assert(windows.deep_view().take(windows.len() as int) =~= windows.deep_view());
    }
    batch
}

// ---------------------------------------------------------------------------
// What the compiled batch creates
// ---------------------------------------------------------------------------

/// The pane commands of one window never create or rename a window.
pub proof fn lemma_panes_cmds_no_window_cmd(panes: Seq<Seq<char>>, dir: Option<Seq<char>>)
    ensures
        forall|k: int|
            0 <= k < panes_cmds(panes, dir).len() ==> !(#[trigger] panes_cmds(panes, dir)[k]
                is NewWindow),
    decreases panes.len(),
{
    if panes.len() == 0 {
    } else {
        lemma_panes_cmds_no_window_cmd(panes.drop_last(), dir);
    }
}

/// The window already present in a fresh session is reused: compiling the
/// window at index 0 never emits a window-creation command, and compiling a
/// window at any higher index emits exactly one, as the batch's first
/// command for that window.
pub proof fn lemma_new_window_emission(idx: int, w: WindowView, dir: Option<Seq<char>>)
    requires
        0 <= idx,
    ensures
        idx == 0 ==> forall|k: int|
            0 <= k < window_cmds(idx, w, dir).len() ==> !(#[trigger] window_cmds(idx, w, dir)[k]
                is NewWindow),
        idx > 0 ==> window_cmds(idx, w, dir)[0] is NewWindow,
        idx > 0 ==> forall|k: int|
            1 <= k < window_cmds(idx, w, dir).len() ==> !(#[trigger] window_cmds(idx, w, dir)[k]
                is NewWindow),
{
    lemma_panes_cmds_no_window_cmd(w.panes, dir);
    let cmds = window_cmds(idx, w, dir);
    let ident = window_identity_cmds(idx, w, dir);
    let rest = panes_cmds(w.panes, dir) + layout_cmds(w.layout);
    assert(cmds == ident + rest);
    assert forall|k: int| 0 <= k < rest.len() implies !(#[trigger] rest[k] is NewWindow) by {
        if k < panes_cmds(w.panes, dir).len() {
            assert(rest[k] == panes_cmds(w.panes, dir)[k]);
        }
    }
    if idx == 0 {
        assert forall|k: int| 0 <= k < cmds.len() implies !(#[trigger] cmds[k] is NewWindow) by {
            if k < ident.len() {
                assert(cmds[k] == ident[k]);
            } else {
                assert(cmds[k] == rest[k - ident.len()]);
            }
        }
    } else {
        assert(cmds[0] == ident[0]);
        assert forall|k: int| 1 <= k < cmds.len() implies !(#[trigger] cmds[k] is NewWindow) by {
            assert(cmds[k] == rest[k - 1]);
        }
    }
}

/// The window's first pane is reused: the pane at index 0 never emits a
/// split command, and every pane at a higher index emits exactly one, before
/// anything is typed into it.
pub proof fn lemma_split_window_emission(panes: Seq<Seq<char>>, dir: Option<Seq<char>>)
    ensures
        panes_cmds(panes, dir).filter(|p: PrimitiveView| p is SplitWindow).len() == if panes.len()
            == 0 {
            0int
        } else {
            panes.len() - 1
        },
    decreases panes.len(),
{
    let is_split = |p: PrimitiveView| p is SplitWindow;
    if panes.len() == 0 {
        assert(panes_cmds(panes, dir).filter(is_split) =~= Seq::<PrimitiveView>::empty());
    } else {
        lemma_split_window_emission(panes.drop_last(), dir);
        let j = panes.len() - 1;
        let last = pane_cmds(j, panes.last(), dir);
        Seq::filter_distributes_over_add(panes_cmds(panes.drop_last(), dir), last, is_split);
        reveal_with_fuel(Seq::filter, 3);
        if j == 0 {
            assert(last.filter(is_split).len() == 0) by {
                if panes.last().len() == 0 {
                    assert(last =~= Seq::<PrimitiveView>::empty());
                } else {
                    assert(last =~= seq![PrimitiveView::SendKeys { text: panes.last() }]);
                }
            }
        } else {
            if panes.last().len() == 0 {
                assert(last =~= seq![PrimitiveView::SplitWindow { start_directory: dir }]);
                assert(last.filter(is_split).len() == 1);
            } else {
                assert(last =~= seq![
                    PrimitiveView::SplitWindow { start_directory: dir },
                    PrimitiveView::SendKeys { text: panes.last() },
                ]);
                assert(last.filter(is_split).len() == 1);
            }
        }
    }
}

// ---------------------------------------------------------------------------
// What the compiled batch types into panes
// ---------------------------------------------------------------------------

/// The texts a batch types into panes, in order.
pub open spec fn sent_texts(batch: Seq<PrimitiveView>) -> Seq<Seq<char>>
    decreases batch.len(),
{
    if batch.len() == 0 {
        Seq::<Seq<char>>::empty()
    } else {
        sent_texts(batch.drop_last()) + match batch.last() {
            PrimitiveView::SendKeys { text } => seq![text],
            _ => Seq::<Seq<char>>::empty(),
        }
    }
}

pub proof fn lemma_sent_texts_add(a: Seq<PrimitiveView>, b: Seq<PrimitiveView>)
    ensures
        sent_texts(a + b) == sent_texts(a) + sent_texts(b),
    decreases b.len(),
{
    if b.len() == 0 {
        assert(a + b =~= a);
        assert(sent_texts(a) + sent_texts(b) =~= sent_texts(a));
    } else {
        lemma_sent_texts_add(a, b.drop_last());
        assert((a + b).drop_last() =~= a + b.drop_last());
        assert((a + b).last() == b.last());
        assert(sent_texts(a + b) =~= sent_texts(a) + sent_texts(b));
    }
}

/// A batch's pane texts are exactly its windows' non-empty pane commands, in
/// declaration order: nothing else in the batch types anything, and an empty
/// pane command types nothing.
pub proof fn lemma_panes_cmds_sent(panes: Seq<Seq<char>>, dir: Option<Seq<char>>)
    ensures
        sent_texts(panes_cmds(panes, dir)) == panes.filter(|c: Seq<char>| c.len() > 0),
    decreases panes.len(),
{
    let pred = |c: Seq<char>| c.len() > 0;
    reveal_with_fuel(Seq::filter, 2);
    reveal_with_fuel(sent_texts, 3);
    if panes.len() == 0 {
        assert(panes.filter(pred) =~= Seq::<Seq<char>>::empty());
        assert(sent_texts(panes_cmds(panes, dir)) =~= Seq::<Seq<char>>::empty());
    } else {
        lemma_panes_cmds_sent(panes.drop_last(), dir);
        let j = panes.len() - 1;
        let lastc = pane_cmds(j, panes.last(), dir);
        lemma_sent_texts_add(panes_cmds(panes.drop_last(), dir), lastc);
        assert(sent_texts(lastc) == if panes.last().len() > 0 {
            seq![panes.last()]
        } else {
            Seq::<Seq<char>>::empty()
        }) by {
            if j == 0 {
                if panes.last().len() == 0 {
                    assert(lastc =~= Seq::<PrimitiveView>::empty());
                } else {
                    assert(lastc =~= seq![PrimitiveView::SendKeys { text: panes.last() }]);
                    assert(lastc.drop_last() =~= Seq::<PrimitiveView>::empty());
                    assert(sent_texts(lastc) =~= seq![panes.last()]);
                }
            } else {
                if panes.last().len() == 0 {
                    assert(lastc =~= seq![PrimitiveView::SplitWindow { start_directory: dir }]);
                    assert(lastc.drop_last() =~= Seq::<PrimitiveView>::empty());
                    assert(sent_texts(lastc) =~= Seq::<Seq<char>>::empty());
                } else {
                    assert(lastc =~= seq![
                        PrimitiveView::SplitWindow { start_directory: dir },
                        PrimitiveView::SendKeys { text: panes.last() },
                    ]);
                    assert(lastc.drop_last() =~= seq![
                        PrimitiveView::SplitWindow { start_directory: dir },
                    ]);
                    assert(lastc.drop_last().drop_last() =~= Seq::<PrimitiveView>::empty());
                    assert(sent_texts(lastc) =~= seq![panes.last()]);
                }
            }
        }
        assert(sent_texts(panes_cmds(panes, dir)) =~= panes.filter(pred));
    }
}

/// One whole window contributes exactly its non-empty pane commands: the
/// identity and layout commands type nothing.
pub proof fn lemma_window_cmds_sent(idx: int, w: WindowView, dir: Option<Seq<char>>)
    ensures
        sent_texts(window_cmds(idx, w, dir)) == w.panes.filter(|c: Seq<char>| c.len() > 0),
{
    reveal_with_fuel(sent_texts, 3);
    let ident = window_identity_cmds(idx, w, dir);
    let pcs = panes_cmds(w.panes, dir);
    let lay = layout_cmds(w.layout);
    lemma_sent_texts_add(ident, pcs);
    lemma_sent_texts_add(ident + pcs, lay);
    lemma_panes_cmds_sent(w.panes, dir);
    assert(sent_texts(ident) =~= Seq::<Seq<char>>::empty()) by {
        if idx == 0 {
            match w.name {
                Some(n) => {
                    assert(ident =~= seq![PrimitiveView::RenameWindow { name: n }]);
                    assert(ident.drop_last() =~= Seq::<PrimitiveView>::empty());
                },
                None => {},
            }
        } else {
            assert(ident.drop_last() =~= Seq::<PrimitiveView>::empty());
        }
    }
    assert(sent_texts(lay) =~= Seq::<Seq<char>>::empty()) by {
        match w.layout {
            Some(l) => {
                assert(lay =~= seq![PrimitiveView::SelectLayout { layout: Some(l) }]);
                assert(lay.drop_last() =~= Seq::<PrimitiveView>::empty());
            },
            None => {},
        }
    }
    assert(window_cmds(idx, w, dir) == (ident + pcs) + lay);
    assert(sent_texts(window_cmds(idx, w, dir)) =~= w.panes.filter(|c: Seq<char>| c.len() > 0));
}

/// All pane commands of a window list, in declaration order.
pub open spec fn all_window_panes(ws: Seq<WindowView>) -> Seq<Seq<char>>
    decreases ws.len(),
{
    if ws.len() == 0 {
        Seq::<Seq<char>>::empty()
    } else {
        all_window_panes(ws.drop_last()) + ws.last().panes
    }
}

/// A whole compiled batch types exactly the non-empty pane commands of its
/// windows, in declaration order.
pub proof fn lemma_windows_cmds_sent(ws: Seq<WindowView>, dir: Option<Seq<char>>)
    ensures
        sent_texts(windows_cmds(ws, dir)) == all_window_panes(ws).filter(
            |c: Seq<char>| c.len() > 0,
        ),
    decreases ws.len(),
{
    let pred = |c: Seq<char>| c.len() > 0;
    if ws.len() == 0 {
        assert(sent_texts(windows_cmds(ws, dir)) =~= Seq::<Seq<char>>::empty());
        assert(all_window_panes(ws).filter(pred) =~= Seq::<Seq<char>>::empty());
    } else {
        lemma_windows_cmds_sent(ws.drop_last(), dir);
        lemma_sent_texts_add(
            windows_cmds(ws.drop_last(), dir),
            window_cmds(ws.len() - 1, ws.last(), dir),
        );
        lemma_window_cmds_sent(ws.len() - 1, ws.last(), dir);
        Seq::filter_distributes_over_add(all_window_panes(ws.drop_last()), ws.last().panes, pred);
        assert(all_window_panes(ws) == all_window_panes(ws.drop_last()) + ws.last().panes);
        assert(sent_texts(windows_cmds(ws, dir)) =~= all_window_panes(ws).filter(pred));
    }
}

/// The first pane of a window never emits a split command; every later pane
/// emits exactly one, before anything is typed into it.
pub proof fn lemma_pane_split_emission(j: int, cmd: Seq<char>, dir: Option<Seq<char>>)
    requires
        0 <= j,
    ensures
        j == 0 ==> forall|k: int|
            0 <= k < pane_cmds(j, cmd, dir).len() ==> !(#[trigger] pane_cmds(j, cmd, dir)[k]
                is SplitWindow),
        j > 0 ==> pane_cmds(j, cmd, dir)[0] is SplitWindow,
        j > 0 ==> forall|k: int|
            1 <= k < pane_cmds(j, cmd, dir).len() ==> !(#[trigger] pane_cmds(j, cmd, dir)[k]
                is SplitWindow),
{
}

/// One whole window's batch creates exactly one window when it stands at a
/// positive index, and none at index 0.
pub proof fn lemma_window_new_window_count(idx: int, w: WindowView, dir: Option<Seq<char>>)
    requires
        0 <= idx,
    ensures
        window_cmds(idx, w, dir).filter(|p: PrimitiveView| p is NewWindow).len() == if idx == 0 {
            0int
        } else {
            1int
        },
{
    let pred = |p: PrimitiveView| p is NewWindow;
    let ident = window_identity_cmds(idx, w, dir);
    let pcs = panes_cmds(w.panes, dir);
    let lay = layout_cmds(w.layout);
    reveal_with_fuel(Seq::filter, 2);
    Seq::filter_distributes_over_add(ident, pcs, pred);
    Seq::filter_distributes_over_add(ident + pcs, lay, pred);
    lemma_panes_cmds_no_window_cmd(w.panes, dir);
    assert(pcs.all(|p: PrimitiveView| !pred(p)));
    pcs.lemma_all_neg_filter_empty(pred);
    assert(ident.filter(pred).len() == if idx == 0 {
        0int
    } else {
        1int
    }) by {
        if idx == 0 {
            match w.name {
                Some(n) => {
                    assert(ident =~= seq![PrimitiveView::RenameWindow { name: n }]);
                    assert(ident.drop_last() =~= Seq::<PrimitiveView>::empty());
                },
                None => {},
            }
        } else {
            assert(ident.drop_last() =~= Seq::<PrimitiveView>::empty());
        }
    }
    assert(lay.filter(pred).len() == 0) by {
        match w.layout {
            Some(l) => {
                assert(lay =~= seq![PrimitiveView::SelectLayout { layout: Some(l) }]);
                assert(lay.drop_last() =~= Seq::<PrimitiveView>::empty());
            },
            None => {},
        }
    }
    assert(window_cmds(idx, w, dir) == (ident + pcs) + lay);
}

/// Across a whole batch, every window but the first is created exactly once:
/// a non-empty window list emits one `new-window` command fewer than it has
/// windows, and index 0 contributes none.
pub proof fn lemma_batch_new_window_count(ws: Seq<WindowView>, dir: Option<Seq<char>>)
    ensures
        windows_cmds(ws, dir).filter(|p: PrimitiveView| p is NewWindow).len() == if ws.len() == 0 {
            0int
        } else {
            ws.len() - 1
        },
    decreases ws.len(),
{
    let pred = |p: PrimitiveView| p is NewWindow;
    if ws.len() == 0 {
        assert(windows_cmds(ws, dir).filter(pred) =~= Seq::<PrimitiveView>::empty());
    } else {
        lemma_batch_new_window_count(ws.drop_last(), dir);
        Seq::filter_distributes_over_add(
            windows_cmds(ws.drop_last(), dir),
            window_cmds(ws.len() - 1, ws.last(), dir),
            pred,
        );
        lemma_window_new_window_count(ws.len() - 1, ws.last(), dir);
    }
}

} // verus!
