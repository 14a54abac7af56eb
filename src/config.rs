use vstd::prelude::*;

verus! {

/// The settings of the service: its public address, log filter, database
/// location, listening port, credentials and page size.
pub struct Configuration {
    url: String,
    log_level: String,
    db_url: String,
    port: u16,
    username: String,
    password: String,
    per_page: i64,
}

impl Configuration {
    /// Settings from their values.
    pub fn with_values(
        url: String,
        log_level: String,
        db_url: String,
        port: u16,
        username: String,
        password: String,
        per_page: i64,
    ) -> (r: Configuration)
        ensures
            r.url() == url@,
            r.log_level() == log_level@,
            r.db_url() == db_url@,
            r.port() == port,
            r.username() == username@,
            r.password() == password@,
            r.per_page() == per_page,
    {
        Configuration { url, log_level, db_url, port, username, password, per_page }
    }

    pub closed spec fn url(&self) -> Seq<char> {
        self.url@
    }

    pub closed spec fn log_level(&self) -> Seq<char> {
        self.log_level@
    }

    pub closed spec fn db_url(&self) -> Seq<char> {
        self.db_url@
    }

    pub closed spec fn port(&self) -> u16 {
        self.port
    }

    pub closed spec fn username(&self) -> Seq<char> {
        self.username@
    }

    pub closed spec fn password(&self) -> Seq<char> {
        self.password@
    }

    pub closed spec fn per_page(&self) -> i64 {
        self.per_page
    }

    pub fn get_url(&self) -> (r: &str)
        ensures
            r@ == self.url(),
    {
        self.url.as_str()
    }

    pub fn get_log_level(&self) -> (r: &str)
        ensures
            r@ == self.log_level(),
    {
        self.log_level.as_str()
    }

    pub fn get_db_url(&self) -> (r: &str)
        ensures
            r@ == self.db_url(),
    {
        self.db_url.as_str()
    }

    pub fn get_port(&self) -> (r: u16)
        ensures
            r == self.port(),
    {
        self.port
    }

    pub fn get_username(&self) -> (r: &str)
        ensures
            r@ == self.username(),
    {
        self.username.as_str()
    }

    pub fn get_password(&self) -> (r: &str)
        ensures
            r@ == self.password(),
    {
        self.password.as_str()
    }

    /// The number of links on one page of a listing.
    pub fn get_page(&self) -> (r: i64)
        ensures
            r == self.per_page(),
    {
        self.per_page
    }
}

} // verus!
