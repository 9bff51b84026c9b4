use vstd::prelude::*;
use crate::helpers::{dir_name, dir_name_spec};
use crate::templates::{apply_windows, clone_opt_string, windows_cmds, Window};
use crate::tmux::{
    attach, attach_spec, candidate_name, get_unused_name, name_used, PrimitiveView, TmuxPrimitive,
};

verus! {

// ---------------------------------------------------------------------------
// Planning what a start request submits
// ---------------------------------------------------------------------------

/// The commands that bring the caller's terminal to the session: none when
/// the session is to stay detached, else a single attach or client switch.
pub open spec fn attach_batch_spec(name: Seq<char>, detached: bool, inside_tmux: bool) -> Seq<
    PrimitiveView,
> {
    if detached {
        Seq::<PrimitiveView>::empty()
    } else {
        seq![attach_spec(name, inside_tmux)]
    }
}

pub fn attach_batch(name: &str, detached: bool, inside_tmux: bool) -> (r: Vec<TmuxPrimitive>)
    ensures
        r.deep_view() == attach_batch_spec(name@, detached, inside_tmux),
{
    let mut batch: Vec<TmuxPrimitive> = Vec::new();
    if !detached {
        let p = attach(name, inside_tmux);
        let ghost pv = p.deep_view();
        batch.push(p);
        proof {
            assert(batch.deep_view() =~~= seq![pv]);
        }
    }
    proof {
        if detached {
            assert(batch.deep_view() =~= Seq::<PrimitiveView>::empty());
        }
    }
    batch
}

/// The full batch that creates a session and materializes a window list in
/// it: the session is created detached under the resolved name, the compiled
/// window commands follow, and the attach or client switch comes last, after
/// the whole batch.
pub open spec fn create_batch_spec(
    windows: Seq<crate::templates::WindowView>,
    session_name: Seq<char>,
    start_directory: Option<Seq<char>>,
    detached: bool,
    inside_tmux: bool,
) -> Seq<PrimitiveView> {
    seq![
        PrimitiveView::NewSession { name: session_name, start_directory, detached: true },
    ] + windows_cmds(windows, start_directory) + attach_batch_spec(
        session_name,
        detached,
        inside_tmux,
    )
}

pub fn new_session_batch(
    windows: &Vec<Window>,
    session_name: &str,
    start_directory: &Option<String>,
    detached: bool,
    inside_tmux: bool,
) -> (r: Vec<TmuxPrimitive>)
    ensures
        r.deep_view() == create_batch_spec(
            windows.deep_view(),
            session_name@,
            start_directory.deep_view(),
            detached,
            inside_tmux,
        ),
{
    let mut batch: Vec<TmuxPrimitive> = Vec::new();
    let p = TmuxPrimitive::NewSession {
        name: session_name.to_owned(),
        start_directory: clone_opt_string(start_directory),
        detached: true,
    };
    let ghost pv = p.deep_view();
    batch.push(p);
    proof {
        assert(batch.deep_view() =~~= seq![pv]);
    }
    let ghost b0 = batch.deep_view();
    let mut wins = apply_windows(windows, start_directory);
    let ghost wv = wins.deep_view();
    batch.append(&mut wins);
    proof {
        assert(batch.deep_view() =~~= b0 + wv);
    }
    let ghost b1 = batch.deep_view();
    let mut att = attach_batch(session_name, detached, inside_tmux);
    let ghost av = att.deep_view();
    batch.append(&mut att);
    proof {
        assert(batch.deep_view() =~~= b1 + av);
        assert(batch.deep_view() =~= create_batch_spec(
            windows.deep_view(),
            session_name@,
            start_directory.deep_view(),
            detached,
            inside_tmux,
        ));
    }
    batch
}

/// Plans what starting a project submits.  A session named after the project
/// that is already live is reused, unless a fresh session is demanded: then,
/// as when no session exists, a new session is created under the first free
/// candidate of the project's name, rooted at the project's resolved path,
/// and the project's windows are compiled into it.
pub fn start_project(
    windows: &Vec<Window>,
    project_name: &str,
    root_path: &str,
    session_exists: bool,
    always_new_session: bool,
    detached: bool,
    inside_tmux: bool,
    used: &Vec<String>,
) -> (r: Vec<TmuxPrimitive>)
    ensures
        session_exists && !always_new_session ==> r.deep_view() == attach_batch_spec(
            project_name@,
            detached,
            inside_tmux,
        ),
        !(session_exists && !always_new_session) ==> exists|i: nat|
            {
                &&& i <= used.len()
                &&& forall|j: nat|
                    j < i ==> name_used(
                        #[trigger] candidate_name(project_name@, j),
                        used.deep_view(),
                    )
                &&& !name_used(#[trigger] candidate_name(project_name@, i), used.deep_view())
                &&& r.deep_view() == create_batch_spec(
                    windows.deep_view(),
                    candidate_name(project_name@, i),
                    Some(root_path@),
                    detached,
                    inside_tmux,
                )
            },
{
    if session_exists && !always_new_session {
        attach_batch(project_name, detached, inside_tmux)
    } else {
        let name = get_unused_name(project_name, used);
        let dir = Some(root_path.to_owned());
        let r = new_session_batch(windows, name.as_str(), &dir, detached, inside_tmux);
        proof {
            let wi = choose|i: nat|
                {
                    &&& i <= used.len()
                    &&& name@ == #[trigger] candidate_name(project_name@, i)
                    &&& forall|j: nat|
                        j < i ==> name_used(
                            #[trigger] candidate_name(project_name@, j),
                            used.deep_view(),
                        )
                    &&& !name_used(name@, used.deep_view())
                };
            assert(r.deep_view() == create_batch_spec(
                windows.deep_view(),
                candidate_name(project_name@, wi),
                Some(root_path@),
                detached,
                inside_tmux,
            ));
            assert(!name_used(candidate_name(project_name@, wi), used.deep_view()));
        }
        r
    }
}

/// The name under which a template session is looked for: the directory's
/// name when a start directory was given, else the template's own name.
pub open spec fn template_session_name_spec(
    template_name: Seq<char>,
    path: Option<Seq<char>>,
) -> Seq<char> {
    match path {
        Some(p) => dir_name_spec(p),
        None => template_name,
    }
}

pub fn template_session_name(template_name: &str, path: &Option<String>) -> (r: String)
    ensures
        r@ == template_session_name_spec(template_name@, path.deep_view()),
{
    match path {
        Some(p) => dir_name(p.as_str()),
        None => template_name.to_owned(),
    }
}

/// The base name from which a fresh template session's name is resolved: the
/// user's choice first, else the start directory's name, else the template's.
pub open spec fn template_base_name(
    user_name: Option<Seq<char>>,
    path: Option<Seq<char>>,
    template_name: Seq<char>,
) -> Seq<char> {
    match user_name {
        Some(u) => u,
        None => template_session_name_spec(template_name, path),
    }
}

/// Resolves the new-session command and the collision-free session name for
/// starting a template, from the optional start directory, the optional
/// user-chosen name and the template's name.
pub fn resolve_cmd_name(
    path: &Option<String>,
    name: &Option<String>,
    template_name: &str,
    used: &Vec<String>,
) -> (r: (TmuxPrimitive, String))
    ensures
        exists|i: nat|
            {
                &&& i <= used.len()
                &&& r.1@ == #[trigger] candidate_name(
                    template_base_name(name.deep_view(), path.deep_view(), template_name@),
                    i,
                )
                &&& forall|j: nat|
                    j < i ==> name_used(
                        #[trigger] candidate_name(
                            template_base_name(
                                name.deep_view(),
                                path.deep_view(),
                                template_name@,
                            ),
                            j,
                        ),
                        used.deep_view(),
                    )
                &&& !name_used(r.1@, used.deep_view())
            },
        r.0.deep_view() == (PrimitiveView::NewSession {
            name: r.1@,
            start_directory: path.deep_view(),
            detached: true,
        }),
{
    let base: String = match name {
        Some(n) => n.clone(),
        None => template_session_name(template_name, path),
    };
    proof {
        assert(base@ == template_base_name(name.deep_view(), path.deep_view(), template_name@));
    }
    let session_name = get_unused_name(base.as_str(), used);
    let cmd = TmuxPrimitive::NewSession {
        name: session_name.clone(),
        start_directory: clone_opt_string(path),
        detached: true,
    };
    proof {
        let tbn = template_base_name(name.deep_view(), path.deep_view(), template_name@);
        let wi = choose|i: nat|
            {
                &&& i <= used.len()
                &&& session_name@ == #[trigger] candidate_name(base@, i)
                &&& forall|j: nat|
                    j < i ==> name_used(#[trigger] candidate_name(base@, j), used.deep_view())
                &&& !name_used(session_name@, used.deep_view())
            };
        assert(session_name@ == candidate_name(tbn, wi));
    }
    (cmd, session_name)
}

/// Plans what starting a template submits.  A live session under the
/// template's session name is reused unless a fresh session is demanded;
/// otherwise a new session is created under the first free candidate of the
/// base name, rooted at the start directory when one was given, and the
/// template's windows are compiled into it.
pub fn start_template(
    windows: &Vec<Window>,
    template_name: &str,
    user_name: &Option<String>,
    path: &Option<String>,
    session_exists: bool,
    always_new_session: bool,
    detached: bool,
    inside_tmux: bool,
    used: &Vec<String>,
) -> (r: Vec<TmuxPrimitive>)
    ensures
        session_exists && !always_new_session ==> r.deep_view() == attach_batch_spec(
            template_session_name_spec(template_name@, path.deep_view()),
            detached,
            inside_tmux,
        ),
        !(session_exists && !always_new_session) ==> exists|i: nat|
            {
                &&& i <= used.len()
                &&& forall|j: nat|
                    j < i ==> name_used(
                        #[trigger] candidate_name(
                            template_base_name(
                                user_name.deep_view(),
                                path.deep_view(),
                                template_name@,
                            ),
                            j,
                        ),
                        used.deep_view(),
                    )
                &&& !name_used(
                    #[trigger] candidate_name(
                        template_base_name(
                            user_name.deep_view(),
                            path.deep_view(),
                            template_name@,
                        ),
                        i,
                    ),
                    used.deep_view(),
                )
                &&& r.deep_view() == create_batch_spec(
                    windows.deep_view(),
                    candidate_name(
                        template_base_name(
                            user_name.deep_view(),
                            path.deep_view(),
                            template_name@,
                        ),
                        i,
                    ),
                    path.deep_view(),
                    detached,
                    inside_tmux,
                )
            },
{
    if session_exists && !always_new_session {
        let display = template_session_name(template_name, path);
        attach_batch(display.as_str(), detached, inside_tmux)
    } else {
        let (cmd, session_name) = resolve_cmd_name(path, user_name, template_name, used);
        let ghost base = template_base_name(
            user_name.deep_view(),
            path.deep_view(),
            template_name@,
        );
        let mut batch: Vec<TmuxPrimitive> = Vec::new();
        let ghost cv = cmd.deep_view();
        batch.push(cmd);
        proof {
            assert(batch.deep_view() =~~= seq![cv]);
        }
        let ghost b0 = batch.deep_view();
        let mut wins = apply_windows(windows, path);
        let ghost wv = wins.deep_view();
        batch.append(&mut wins);
        proof {
            assert(batch.deep_view() =~~= b0 + wv);
        }
        let ghost b1 = batch.deep_view();
        let mut att = attach_batch(session_name.as_str(), detached, inside_tmux);
        let ghost av = att.deep_view();
        batch.append(&mut att);
        proof {
            assert(batch.deep_view() =~~= b1 + av);
            let wi = choose|i: nat|
                {
                    &&& i <= used.len()
                    &&& session_name@ == #[trigger] candidate_name(base, i)
                    &&& forall|j: nat|
                        j < i ==> name_used(#[trigger] candidate_name(base, j), used.deep_view())
                    &&& !name_used(session_name@, used.deep_view())
                };
            assert(batch.deep_view() =~= create_batch_spec(
                windows.deep_view(),
                candidate_name(base, wi),
                path.deep_view(),
                detached,
                inside_tmux,
            ));
        }
        batch
    }
}

/// Plans what starting a configured directory submits: a new detached
/// session rooted at the directory is created when none of that name is live
/// or a fresh one is demanded, and the caller's terminal is brought to the
/// session unless it asked to stay detached.
pub open spec fn directory_batch_spec(
    name: Seq<char>,
    path: Seq<char>,
    session_exists: bool,
    always_new_session: bool,
    detached: bool,
    inside_tmux: bool,
) -> Seq<PrimitiveView> {
    (if always_new_session || !session_exists {
        seq![
            PrimitiveView::NewSession {
                name: name,
                start_directory: Some(path),
                detached: true,
            },
        ]
    } else {
        Seq::<PrimitiveView>::empty()
    }) + attach_batch_spec(name, detached, inside_tmux)
}

pub fn start_directory(
    name: &str,
    path: &str,
    session_exists: bool,
    always_new_session: bool,
    detached: bool,
    inside_tmux: bool,
) -> (r: Vec<TmuxPrimitive>)
    ensures
        r.deep_view() == directory_batch_spec(
            name@,
            path@,
            session_exists,
            always_new_session,
            detached,
            inside_tmux,
        ),
{
    let mut batch: Vec<TmuxPrimitive> = Vec::new();
    if always_new_session || !session_exists {
        let p = TmuxPrimitive::NewSession {
            name: name.to_owned(),
            start_directory: Some(path.to_owned()),
            detached: true,
        };
        let ghost pv = p.deep_view();
        batch.push(p);
        proof {
            assert(batch.deep_view() =~~= seq![pv]);
        }
    }
    let ghost b0 = batch.deep_view();
    proof {
        if !(always_new_session || !session_exists) {
            assert(b0 =~= Seq::<PrimitiveView>::empty());
        }
    }
    let mut att = attach_batch(name, detached, inside_tmux);
    let ghost av = att.deep_view();
    batch.append(&mut att);
    proof {
        assert(batch.deep_view() =~~= b0 + av);
        assert(batch.deep_view() =~= directory_batch_spec(
            name@,
            path@,
            session_exists,
            always_new_session,
            detached,
            inside_tmux,
        ));
    }
    batch
}

} // verus!
