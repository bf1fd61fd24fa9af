//! Certificate and proxy-configuration coordination.
//!
//! For each domain of a ready, exposed app the coordinator decides
//! whether certificate issuance can be skipped (a certificate exists
//! and does not expire within a day), and which issuance path to take
//! (self-signed versus ACME). It also derives the per-domain virtual
//! host configuration values: backend, port, primary domain, and the
//! `www.` alias that bare second-level domains receive.

use vstd::prelude::*;

use crate::models::App;

verus! {

/// Occurrences of `c` in `s`.
pub open spec fn count_char(s: Seq<char>, c: char) -> nat
    decreases s.len(),
{
    if s.len() == 0 {
        0
    } else {
        count_char(s.drop_last(), c) + if s.last() == c {
            1nat
        } else {
            0nat
        }
    }
}

/// A bare second-level domain: exactly one label before the top-level
/// domain, i.e. exactly one dot in the whole name (`example.com`, but
/// not `api.example.com`).
pub open spec fn bare_second_level(domain: Seq<char>) -> bool {
    count_char(domain, '.') == 1
}

/// Counts the occurrences of `c` in `s`.
pub fn count_char_in(s: &str, c: char) -> (r: usize)
    ensures
        r == count_char(s@, c),
{
    let n = s.unicode_len();
    let mut r: usize = 0;
    let mut i: usize = 0;
    while i < n
        invariant
            i <= n,
            n == s@.len(),
            r <= i,
            r == count_char(s@.take(i as int), c),
        decreases n - i,
    {
        let ch = s.get_char(i);
        proof {
            assert(s@.take(i as int + 1).drop_last() =~= s@.take(i as int));
            assert(s@.take(i as int + 1).last() == s@[i as int]);
        }
        if ch == c {
            r = r + 1;
        }
        i = i + 1;
    }
    proof {
        assert(s@.take(n as int) =~= s@);
    }
    r
}

/// The substitution values of one proxy virtual-host file: one file per
/// domain, keyed by the domain name.
pub struct VhostConf {
    /// The domain the file is keyed by.
    pub file_name: String,
    /// Backend target: the app's container name.
    pub backend: String,
    /// Backend port, `"80"` when the app declares none.
    pub port: String,
    /// The primary domain served.
    pub primary: String,
    /// `www.{domain}` when the domain is a bare second-level domain.
    pub www_alias: Option<String>,
}

/// The virtual-host values `vc` are exactly what `app` publishes for
/// `domain`: the file is keyed by the domain, the backend is the app's
/// container on its port (default 80), and a bare second-level domain
/// carries a `www.` alias.
pub open spec fn vhost_matches(vc: VhostConf, app: crate::models::AppView, domain: Seq<char>) -> bool {
    &&& vc.file_name@ == domain
    &&& vc.backend@ == app.container_name
    &&& vc.primary@ == domain
    &&& vc.port@ == match app.port {
        Some(p) => p,
        None => seq!['8', '0'],
    }
    &&& (bare_second_level(domain) ==> (vc.www_alias matches Some(w) && w@ == seq!['w', 'w', 'w', '.']
        + domain))
    &&& (!bare_second_level(domain) ==> vc.www_alias is None)
}

/// Derives the virtual-host configuration of one domain of an app.
///
/// A domain with exactly one label before the top-level domain gets a
/// `www.` alias added to its server names; any deeper subdomain gets
/// none.
pub fn vhost_conf(app: &App, domain: &String) -> (r: VhostConf)
    ensures
        vhost_matches(r, app@, domain@),
{
    let port = match &app.port {
        Some(p) => p.clone(),
        None => {
            proof {
                reveal_strlit("80");
                assert("80"@ =~= seq!['8', '0']);
            }
            String::from_str("80")
        },
    };
    let www_alias = if count_char_in(domain.as_str(), '.') == 1 {
        proof {
            reveal_strlit("www.");
            assert("www."@ =~= seq!['w', 'w', 'w', '.']);
        }
        let mut w = String::from_str("www.");
        w.append(domain.as_str());
        proof {
            assert(w@ =~= seq!['w', 'w', 'w', '.'] + domain@);
        }
        Some(w)
    } else {
        None
    };
    VhostConf {
        file_name: domain.clone(),
        backend: app.container_name.clone(),
        port,
        primary: domain.clone(),
        www_alias,
    }
}

/// What the certificate store shows for one domain.
pub struct CertObservation {
    /// A certificate for the domain exists.
    pub present: bool,
    /// It expires within the next twenty-four hours.
    pub expires_within_day: bool,
}

/// A present certificate that does not expire within a day needs no
/// issuance.
pub open spec fn cert_usable(o: CertObservation) -> bool {
    o.present && !o.expires_within_day
}

/// The issuance decision for one domain.
pub enum CertAction {
    /// A usable certificate exists; no issuance command runs.
    Skip,
    /// Generate a self-signed certificate for the domain.
    IssueSelfSigned(String),
    /// Perform a webroot-validated ACME issuance with the app's
    /// contact email for the domain.
    IssueAcme(String, String),
}

impl App {
    /// Decides certificate issuance for one of the app's domains.
    ///
    /// Skips exactly when a usable certificate is already present; a
    /// repeated call after an issuance therefore runs no issuance
    /// command. Otherwise the app's `openssl` flag selects self-signed
    /// issuance, and the ACME path carries the app's contact email.
    pub fn certificate_action(&self, domain: &String, status: &CertObservation) -> (r: CertAction)
        requires
            self@.openssl != Some(true) ==> self@.email is Some,
        ensures
            r is Skip <==> cert_usable(*status),
            !cert_usable(*status) && self@.openssl == Some(true) ==> (r matches
                CertAction::IssueSelfSigned(d) && d@ == domain@),
            !cert_usable(*status) && self@.openssl != Some(true) ==> (r matches
                CertAction::IssueAcme(e, d) && self@.email == Some(e@) && d@ == domain@),
    {
        if status.present && !status.expires_within_day {
            return CertAction::Skip;
        }
        let use_openssl = match self.openssl {
            Some(b) => b,
            None => false,
        };
        if use_openssl {
            CertAction::IssueSelfSigned(domain.clone())
        } else {
            let email = match &self.email {
                Some(e) => e.clone(),
                None => {
                    proof {
                        assert(false);
                    }
                    String::new()
                },
            };
            CertAction::IssueAcme(email, domain.clone())
        }
    }
}

} // verus!
