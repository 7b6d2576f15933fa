//! How to reach the management service of the system.
//!
//! The connection itself is made by the program around this crate; here is
//! what it is made with.

use vstd::prelude::*;

verus! {

/// The settings of a connection.
#[derive(Debug, Clone)]
pub struct WmiConnector {
    namespace: String,
    user: Option<String>,
    password: Option<String>,
    locale: Option<String>,
    use_max_wait: bool,
    authority: Option<String>,
}

pub struct WmiConnectorView {
    pub namespace: Seq<char>,
    pub user: Option<Seq<char>>,
    pub password: Option<Seq<char>>,
    pub locale: Option<Seq<char>>,
    pub use_max_wait: bool,
    pub authority: Option<Seq<char>>,
}

impl View for WmiConnector {
    type V = WmiConnectorView;

    closed spec fn view(&self) -> WmiConnectorView {
        WmiConnectorView {
            namespace: self.namespace@,
            user: self.user.deep_view(),
            password: self.password.deep_view(),
            locale: self.locale.deep_view(),
            use_max_wait: self.use_max_wait,
            authority: self.authority.deep_view(),
        }
    }
}

/// The flag that makes the connection give up after two minutes.
pub const WBEM_FLAG_CONNECT_USE_MAX_WAIT: i32 = 0x80;

impl WmiConnector {
    /// The settings for a namespace, with nothing else set.
    pub fn new(namespace: &str) -> (result: Self)
        ensures
            result@ == (WmiConnectorView {
                namespace: namespace@,
                user: None,
                password: None,
                locale: None,
                use_max_wait: false,
                authority: None,
            }),
    {
        Self {
            namespace: namespace.to_owned(),
            user: None,
            password: None,
            locale: None,
            use_max_wait: false,
            authority: None,
        }
    }

    pub fn user(self, user: &str) -> (result: Self)
        ensures
            result@ == (WmiConnectorView { user: Some(user@), ..self@ }),
    {
        let WmiConnector { namespace, user: _, password, locale, use_max_wait, authority } = self;
        WmiConnector {
            namespace,
            user: Some(user.to_owned()),
            password,
            locale,
            use_max_wait,
            authority,
        }
    }

    pub fn password(self, password: &str) -> (result: Self)
        ensures
            result@ == (WmiConnectorView { password: Some(password@), ..self@ }),
    {
        let WmiConnector { namespace, user, password: _, locale, use_max_wait, authority } = self;
        WmiConnector {
            namespace,
            user,
            password: Some(password.to_owned()),
            locale,
            use_max_wait,
            authority,
        }
    }

    pub fn locale(self, locale: &str) -> (result: Self)
        ensures
            result@ == (WmiConnectorView { locale: Some(locale@), ..self@ }),
    {
        let WmiConnector { namespace, user, password, locale: _, use_max_wait, authority } = self;
        WmiConnector {
            namespace,
            user,
            password,
            locale: Some(locale.to_owned()),
            use_max_wait,
            authority,
        }
    }

    pub fn authority(self, authority: &str) -> (result: Self)
        ensures
            result@ == (WmiConnectorView { authority: Some(authority@), ..self@ }),
    {
        let WmiConnector { namespace, user, password, locale, use_max_wait, authority: _ } = self;
        WmiConnector {
            namespace,
            user,
            password,
            locale,
            use_max_wait,
            authority: Some(authority.to_owned()),
        }
    }

    /// The settings as the connection reads them.
    pub fn settings(&self) -> (result: (
        &String,
        &Option<String>,
        &Option<String>,
        &Option<String>,
        i32,
        &Option<String>,
    ))
        ensures
            result.0@ == self@.namespace,
            result.1.deep_view() == self@.user,
            result.2.deep_view() == self@.password,
            result.3.deep_view() == self@.locale,
            result.4 == if self@.use_max_wait {
                WBEM_FLAG_CONNECT_USE_MAX_WAIT
            } else {
                0i32
            },
            result.5.deep_view() == self@.authority,
    {
        (
            &self.namespace,
            &self.user,
            &self.password,
            &self.locale,
            if self.use_max_wait {
                WBEM_FLAG_CONNECT_USE_MAX_WAIT
            } else {
                0
            },
            &self.authority,
        )
    }
}

} // verus!
