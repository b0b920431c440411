//! Settings of the server and the runtime environment it reads them for.
use vstd::prelude::*;
use vstd::string::StringExecFns;

verus! {

broadcast use vstd::string::group_string_axioms;

/// All settings.
#[derive(Debug)]
pub struct Settings {
    pub application: ApplicationSettings,
    pub websocket: WSSettings,
}

/// Where the server listens.
#[derive(Debug)]
pub struct ApplicationSettings {
    pub port: u16,
    pub host: String,
}

/// Liveness checking of connections.
#[derive(Clone, Copy, Debug)]
pub struct WSSettings {
    /// In milliseconds
    pub heartbeat_interval: u64,
    /// In milliseconds
    pub client_timeout: u64,
}

impl WSSettings {
    /// A check every `heartbeat_interval` can only notice a timeout longer than
    /// the interval.
    pub fn is_meaningful(&self) -> (r: bool)
        ensures
            r == (self.client_timeout > self.heartbeat_interval),
    {
        self.client_timeout > self.heartbeat_interval
    }
}

/// The possible runtime environment for our application.
#[derive(Clone, Copy, Debug, PartialEq, Eq, Structural)]
pub enum Environment {
    Local,
    Production,
}

/// What `str::to_lowercase` makes of a text.
pub uninterp spec fn lowercase_of(s: Seq<char>) -> Seq<char>;

/// Relies on `str::to_lowercase`: the lowercase form, a function of the
/// characters alone.
#[verifier::external_body]
fn lowercase(s: &String) -> (r: String)
    ensures
        r@ == lowercase_of(s@),
{
    s.to_lowercase()
}

impl Environment {
    pub open spec fn name(&self) -> Seq<char> {
        match self {
            Environment::Local => "local"@,
            Environment::Production => "production"@,
        }
    }

    /// The environment's name, which also names its settings file.
    pub fn as_str(&self) -> (r: &'static str)
        ensures
            r@ == self.name(),
    {
        match self {
            Environment::Local => "local",
            Environment::Production => "production",
        }
    }

    /// The environment named `value`, in any case.
    pub fn try_from(value: String) -> (r: Result<Self, String>)
        ensures
            lowercase_of(value@) == "local"@ ==> r == Ok::<Self, String>(Environment::Local),
            lowercase_of(value@) == "production"@ ==> r == Ok::<Self, String>(
                Environment::Production,
            ),
            lowercase_of(value@) != "local"@ && lowercase_of(value@) != "production"@ ==> r is Err
                && r->Err_0@ == lowercase_of(value@)
                + " is not a supported environment. Use either `local` or `production`."@,
    {
        proof {
            reveal_strlit("local");
            reveal_strlit("production");
            assert("local"@.len() == 5);
            assert("production"@.len() == 10);
            assert("local"@ != "production"@);
        }
        let lower = lowercase(&value);
        if lower == "local".to_string() {
            Ok(Environment::Local)
        } else if lower == "production".to_string() {
            Ok(Environment::Production)
        } else {
            Err(lower.concat(" is not a supported environment. Use either `local` or `production`."))
        }
    }
}

} // verus!
