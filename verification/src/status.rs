//! Status reporting rows.
//!
//! Turns the registry and the engine's per-container state into the
//! table rows the status display prints.

use vstd::prelude::*;

use crate::models::{App, AppView};
use crate::vecs::lemma_deep_view_push;

verus! {

/// The domain list joined into one newline-separated cell.
pub open spec fn joined_lines(ds: Seq<Seq<char>>) -> Seq<char>
    decreases ds.len(),
{
    if ds.len() == 0 {
        Seq::empty()
    } else if ds.len() == 1 {
        ds[0]
    } else {
        joined_lines(ds.drop_last()) + "\n"@ + ds.last()
    }
}

/// Joins the given names with newlines.
pub fn join_lines(ds: &Vec<String>) -> (r: String)
    ensures
        r@ == joined_lines(ds.deep_view()),
{
    let ghost dv = ds.deep_view();
    let mut r = String::new();
    let mut i: usize = 0;
    while i < ds.len()
        invariant
            i <= ds@.len(),
            dv == ds.deep_view(),
            r@ == joined_lines(dv.take(i as int)),
        decreases ds@.len() - i,
    {
        proof {
            assert(dv.take(i as int + 1).drop_last() =~= dv.take(i as int));
            assert(dv.take(i as int + 1).last() == dv[i as int]);
        }
        if i > 0 {
            r.append("\n");
        }
        r.append(ds[i].as_str());
        proof {
            if i == 0 {
                assert(r@ =~= joined_lines(dv.take(1)));
            }
        }
        i = i + 1;
    }
    proof {
        assert(dv.take(ds@.len() as int) =~= dv);
    }
    r
}

/// A container identifier cut to twelve characters with an ellipsis,
/// for display.
pub fn short_id(id: &str) -> (r: String)
    ensures
        id@.len() > 12 ==> r@ == id@.take(12) + "..."@,
        id@.len() <= 12 ==> r@ == id@ + "..."@,
{
    let n = id.unicode_len();
    let mut r = if n > 12 {
        id.substring_char(0, 12).to_owned()
    } else {
        id.to_owned()
    };
    proof {
        if n > 12 {
            assert(r@ =~= id@.take(12));
        }
    }
    r.append("...");
    r
}

/// Mathematical view of an [`AppStatus`] row.
pub ghost struct AppStatusView {
    pub project: Seq<char>,
    pub service: Seq<char>,
    pub container_name: Seq<char>,
    pub port: Seq<char>,
    pub status: Seq<char>,
    pub domains: Seq<char>,
    pub image: Seq<char>,
    pub certificate: Seq<char>,
}

/// One row of the status table.
pub struct AppStatus {
    pub project: String,
    pub service: String,
    pub container_name: String,
    pub port: String,
    pub status: String,
    pub domains: String,
    pub image: String,
    pub certificate: String,
}

impl View for AppStatus {
    type V = AppStatusView;

    open spec fn view(&self) -> AppStatusView {
        AppStatusView {
            project: self.project@,
            service: self.service@,
            container_name: self.container_name@,
            port: self.port@,
            status: self.status@,
            domains: self.domains@,
            image: self.image@,
            certificate: self.certificate@,
        }
    }
}

impl DeepView for AppStatus {
    type V = AppStatusView;

    open spec fn deep_view(&self) -> AppStatusView {
        self.view()
    }
}

/// The row shows exactly this app under this project with this engine
/// state: its names and image verbatim, the port or an empty cell, the
/// domains joined by newlines, and the certificate method label.
pub open spec fn row_matches(
    row: AppStatusView,
    app: AppView,
    project: Seq<char>,
    status: Seq<char>,
) -> bool {
    &&& row.project == project
    &&& row.service == app.name
    &&& row.container_name == app.container_name
    &&& row.port == match app.port {
        Some(p) => p,
        None => Seq::<char>::empty(),
    }
    &&& row.status == status
    &&& row.domains == match app.domains {
        Some(ds) => joined_lines(ds),
        None => Seq::<char>::empty(),
    }
    &&& row.image == app.image
    &&& row.certificate == match app.openssl {
        Some(true) => "openssl"@,
        Some(false) => "letsencrypt"@,
        None => Seq::<char>::empty(),
    }
}

impl AppStatus {
    /// Builds the status row of one app.
    pub fn from_app(app: &App, project: &String, status: String) -> (r: AppStatus)
        ensures
            row_matches(r@, app@, project@, status@),
    {
        let domains = match &app.domains {
            Some(ds) => join_lines(ds),
            None => String::new(),
        };
        let certificate = match app.openssl {
            Some(b) => {
                if b {
                    String::from_str("openssl")
                } else {
                    String::from_str("letsencrypt")
                }
            },
            None => String::new(),
        };
        let port = match &app.port {
            Some(p) => p.clone(),
            None => String::new(),
        };
        AppStatus {
            project: project.clone(),
            service: app.name.clone(),
            container_name: app.container_name.clone(),
            port,
            status,
            domains,
            image: app.image.clone(),
            certificate,
        }
    }

    /// Builds the status rows of a project's apps, one per app, paired
    /// with the observed engine state of each.
    pub fn from_apps(apps: &Vec<App>, project: &String, statuses: &Vec<String>) -> (r: Vec<
        AppStatus,
    >)
        requires
            apps.deep_view().len() == statuses.deep_view().len(),
        ensures
            r.deep_view().len() == apps.deep_view().len(),
            forall|k: int|
                0 <= k < r.deep_view().len() ==> row_matches(
                    #[trigger] r.deep_view()[k],
                    apps.deep_view()[k],
                    project@,
                    statuses.deep_view()[k],
                ),
    {
        let ghost av = apps.deep_view();
        let ghost sv = statuses.deep_view();
        let mut r: Vec<AppStatus> = Vec::new();
        let mut i: usize = 0;
        while i < apps.len()
            invariant
                i <= apps@.len(),
                av == apps.deep_view(),
                sv == statuses.deep_view(),
                av.len() == sv.len(),
                r.deep_view().len() == i,
                forall|k: int|
                    0 <= k < i ==> row_matches(#[trigger] r.deep_view()[k], av[k], project@, sv[k]),
            decreases apps@.len() - i,
        {
            let ghost r0 = r;
            let row = AppStatus::from_app(&apps[i], project, statuses[i].clone());
            let ghost grow = row;
            r.push(row);
            proof {
                lemma_deep_view_push(r0, r, grow);
            }
            i = i + 1;
        }
        r
    }
}

/// The overall status: the proxy's state line and one row per app of
/// every project.
pub struct Status {
    pub nginx: String,
    pub apps: Vec<AppStatus>,
}

impl Status {
    /// The proxy's status line: its observed state, or a note that no
    /// proxy container exists.
    pub fn nginx_line(state: Option<&String>) -> (r: String)
        ensures
            state matches Some(s) ==> r@ == "Nginx: "@ + s@,
            state is None ==> r@ == "Nginx: not found"@,
    {
        match state {
            Some(s) => {
                let mut r = String::from_str("Nginx: ");
                r.append(s.as_str());
                r
            },
            None => String::from_str("Nginx: not found"),
        }
    }
}

} // verus!
