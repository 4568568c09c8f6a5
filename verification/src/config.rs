use vstd::prelude::*;
use vstd::string::StringExecFns;

verus! {

/// Connection parameters of the backing store, supplied by the surrounding
/// process at startup.
pub struct DatabaseConfig {
    pub host: String,
    pub user: String,
    pub password: String,
    pub dbname: String,
}

impl DatabaseConfig {
    /// Renders the parameters as a key/value connection string.
    pub fn config_to_string(&self) -> (r: String)
        ensures
            r@ == "host="@ + self.host@ + " user="@ + self.user@ + " password="@ + self.password@
                + " dbname="@ + self.dbname@,
    {
        let mut out: String = String::from_str("host=");
        out.append(self.host.as_str());
        out.append(" user=");
        out.append(self.user.as_str());
        out.append(" password=");
        out.append(self.password.as_str());
        out.append(" dbname=");
        out.append(self.dbname.as_str());
        out
    }
}

} // verus!
