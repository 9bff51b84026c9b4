use vstd::prelude::*;
use crate::strutil::str_eq;
use crate::templates::{clone_windows, Template, TemplateView, Window, WindowView};

verus! {

// ---------------------------------------------------------------------------
// Projects
// ---------------------------------------------------------------------------

/// How a project obtains its windows: an ordered inline list, or a reference
/// to a stored template by name, resolved when the project is started.
#[derive(Debug, Clone)]
pub enum ProjectSetup {
    Template(String),
    Windows(Vec<Window>),
}

/// The mathematical shape of a project setup.
#[verifier::ext_equal]
pub enum ProjectSetupView {
    Template(Seq<char>),
    Windows(Seq<WindowView>),
}

impl DeepView for ProjectSetup {
    type V = ProjectSetupView;

    open spec fn deep_view(&self) -> ProjectSetupView {
        match self {
            ProjectSetup::Template(n) => ProjectSetupView::Template(n@),
            ProjectSetup::Windows(ws) => ProjectSetupView::Windows(ws.deep_view()),
        }
    }
}

/// A named layout bound to a root directory.
#[derive(Debug, Clone)]
pub struct Project {
    pub name: String,
    pub root_dir: String,
    pub setup: ProjectSetup,
}

/// The mathematical shape of a project.
#[verifier::ext_equal]
pub struct ProjectView {
    pub name: Seq<char>,
    pub root_dir: Seq<char>,
    pub setup: ProjectSetupView,
}

impl DeepView for Project {
    type V = ProjectView;

    open spec fn deep_view(&self) -> ProjectView {
        ProjectView { name: self.name@, root_dir: self.root_dir@, setup: self.setup.deep_view() }
    }
}

/// A name lookup that failed; both lookups are fatal for the caller.
#[derive(Debug, Clone)]
pub enum LookupError {
    TemplateNotFound(String),
    ProjectNotFound(String),
}

/// The position of the first template with the given name, or -1.
pub open spec fn template_index(ts: Seq<TemplateView>, name: Seq<char>) -> int
    decreases ts.len(),
{
    if ts.len() == 0 {
        -1
    } else if ts[0].name == name {
        0
    } else {
        let r = template_index(ts.drop_first(), name);
        if r < 0 {
            -1
        } else {
            r + 1
        }
    }
}

proof fn lemma_template_index_at(ts: Seq<TemplateView>, name: Seq<char>, i: int)
    requires
        0 <= i <= ts.len(),
        forall|j: int| 0 <= j < i ==> (#[trigger] ts[j]).name != name,
        i < ts.len() ==> ts[i].name == name,
    ensures
        template_index(ts, name) == if i == ts.len() {
            -1int
        } else {
            i
        },
    decreases ts.len(),
{
    if ts.len() == 0 {
    } else if i == 0 {
    } else {
        let t = ts.drop_first();
        assert forall|j: int| 0 <= j < i - 1 implies (#[trigger] t[j]).name != name by {
            assert(t[j] == ts[j + 1]);
        }
        if i - 1 < t.len() {
            assert(t[i - 1] == ts[i]);
        }
        lemma_template_index_at(t, name, i - 1);
    }
}

/// Finds the first stored template with the given name.
pub fn find_template<'a>(templates: &'a Vec<Template>, name: &str) -> (r: Option<&'a Template>)
    ensures
        match r {
            Some(t) => template_index(templates.deep_view(), name@) >= 0 && t.deep_view()
                == templates.deep_view()[template_index(templates.deep_view(), name@)],
            None => template_index(templates.deep_view(), name@) == -1,
        },
{
    let ghost ts = templates.deep_view();
    proof {
        assert(ts.len() == templates.len());
    }
    let mut k: usize = 0;
    while k < templates.len()
        invariant
            k <= templates.len(),
            ts == templates.deep_view(),
            ts.len() == templates.len(),
            forall|j: int| 0 <= j < k ==> (#[trigger] ts[j]).name != name@,
        decreases templates.len() - k,
    {
        let t = &templates[k];
        proof {
            assert(t.deep_view() == ts[k as int]);
        }
        if str_eq(t.name.as_str(), name) {
            proof {
                lemma_template_index_at(ts, name@, k as int);
            }
            return Some(t);
        }
        k = k + 1;
    }
    proof {
        lemma_template_index_at(ts, name@, ts.len() as int);
    }
    None
}

/// The first stored project with the given name.
pub open spec fn project_index(ps: Seq<ProjectView>, name: Seq<char>) -> int
    decreases ps.len(),
{
    if ps.len() == 0 {
        -1
    } else if ps[0].name == name {
        0
    } else {
        let r = project_index(ps.drop_first(), name);
        if r < 0 {
            -1
        } else {
            r + 1
        }
    }
}

proof fn lemma_project_index_at(ps: Seq<ProjectView>, name: Seq<char>, i: int)
    requires
        0 <= i <= ps.len(),
        forall|j: int| 0 <= j < i ==> (#[trigger] ps[j]).name != name,
        i < ps.len() ==> ps[i].name == name,
    ensures
        project_index(ps, name) == if i == ps.len() {
            -1int
        } else {
            i
        },
    decreases ps.len(),
{
    if ps.len() == 0 {
    } else if i == 0 {
    } else {
        let t = ps.drop_first();
        assert forall|j: int| 0 <= j < i - 1 implies (#[trigger] t[j]).name != name by {
            assert(t[j] == ps[j + 1]);
        }
        if i - 1 < t.len() {
            assert(t[i - 1] == ps[i]);
        }
        lemma_project_index_at(t, name, i - 1);
    }
}

/// Finds the first stored project with the given name.
pub fn find_project<'a>(projects: &'a Vec<Project>, name: &str) -> (r: Option<&'a Project>)
    ensures
        match r {
            Some(p) => project_index(projects.deep_view(), name@) >= 0 && p.deep_view()
                == projects.deep_view()[project_index(projects.deep_view(), name@)],
            None => project_index(projects.deep_view(), name@) == -1,
        },
{
    let ghost ps = projects.deep_view();
    proof {
        assert(ps.len() == projects.len());
    }
    let mut k: usize = 0;
    while k < projects.len()
        invariant
            k <= projects.len(),
            ps == projects.deep_view(),
            ps.len() == projects.len(),
            forall|j: int| 0 <= j < k ==> (#[trigger] ps[j]).name != name@,
        decreases projects.len() - k,
    {
        let p = &projects[k];
        proof {
            assert(p.deep_view() == ps[k as int]);
        }
        if str_eq(p.name.as_str(), name) {
            proof {
                lemma_project_index_at(ps, name@, k as int);
            }
            return Some(p);
        }
        k = k + 1;
    }
    proof {
        lemma_project_index_at(ps, name@, ps.len() as int);
    }
    None
}

/// What resolving a setup against a template store yields: an inline list is
/// returned as it stands; a template reference yields the windows of the
/// first stored template of that name, and fails only when no template
/// carries the name.
pub open spec fn resolved_windows(
    setup: ProjectSetupView,
    ts: Seq<TemplateView>,
) -> Result<Seq<WindowView>, Seq<char>> {
    match setup {
        ProjectSetupView::Windows(ws) => Ok(ws),
        ProjectSetupView::Template(n) => {
            let k = template_index(ts, n);
            if k >= 0 {
                Ok(ts[k].windows)
            } else {
                Err(n)
            }
        },
    }
}

/// Resolves a project's effective window list against the template store,
/// signalling `TemplateNotFound` when a referenced template does not exist.
pub fn resolve_windows(setup: &ProjectSetup, templates: &Vec<Template>) -> (r: Result<
    Vec<Window>,
    LookupError,
>)
    ensures
        match r {
            Ok(ws) => resolved_windows(setup.deep_view(), templates.deep_view())
                == Ok::<Seq<WindowView>, Seq<char>>(ws.deep_view()),
            Err(e) => e matches LookupError::TemplateNotFound(n) && resolved_windows(
                setup.deep_view(),
                templates.deep_view(),
            ) == Err::<Seq<WindowView>, Seq<char>>(n@),
        },
{
    match setup {
        ProjectSetup::Windows(ws) => Ok(clone_windows(ws)),
        ProjectSetup::Template(n) => {
            match find_template(templates, n.as_str()) {
                Some(t) => Ok(clone_windows(&t.windows)),
                None => Err(LookupError::TemplateNotFound(n.clone())),
            }
        },
    }
}

} // verus!
