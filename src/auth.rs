//! Proxy credentials.
use vstd::prelude::*;

verus! {

/// How clients must authenticate: not at all, or with a username and a password.
#[derive(Debug, Clone)]
pub enum Authentication {
    NoAuth,
    Basic(String, String),
}

/// The mathematical value of an authentication setting.
pub enum AuthView {
    NoAuth,
    Basic(Seq<char>, Seq<char>),
}

impl View for Authentication {
    type V = AuthView;

    open spec fn view(&self) -> AuthView {
        match self {
            Authentication::NoAuth => AuthView::NoAuth,
            Authentication::Basic(u, p) => AuthView::Basic(u@, p@),
        }
    }
}

/// Whether the credentials are accepted: anything is when no authentication is
/// required, else exactly the configured pair.
pub open spec fn accepts(a: AuthView, user: Seq<char>, pass: Seq<char>) -> bool {
    match a {
        AuthView::NoAuth => true,
        AuthView::Basic(u, p) => u == user && p == pass,
    }
}

/// Something that accepts or refuses a username and a password.
pub trait Authenticator {
    fn authenticate(&self, user: &String, pass: &String) -> bool;
}

impl Authenticator for Authentication {
    fn authenticate(&self, user: &String, pass: &String) -> bool {
        self.check(user, pass)
    }
}

impl Authentication {
    /// Checks a username and a password.
    pub fn check(&self, user: &String, pass: &String) -> (r: bool)
        ensures
            r == accepts(self@, user@, pass@),
    {
        match self {
            Authentication::NoAuth => true,
            Authentication::Basic(u, p) => *u == *user && *p == *pass,
        }
    }

    /// Whether a username and a password are required.
    pub fn is_basic(&self) -> (r: bool)
        ensures
            r == (self@ is Basic),
    {
        match self {
            Authentication::NoAuth => false,
            Authentication::Basic(..) => true,
        }
    }
}

} // verus!
