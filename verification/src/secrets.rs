use vstd::prelude::*;
use vstd::string::StringExecFns;

verus! {

/// The connection strings and signing material of one deployment. The
/// fetching of production values is outside the core; only the local,
/// fixed configuration is built here.
#[derive(Debug, Clone, PartialEq, Eq)]
pub struct Secrets {
    pub data_db_url: String,
    pub meta_db_url: String,
    pub google_oauth2_client_id_android: String,
    pub google_oauth2_client_id_ios: String,
    pub jwt_secret: String,
    pub aws_access_key_id: String,
    pub aws_secret_access_key: String,
}

impl Secrets {
    /// The fixed configuration for a store running on this machine.
    pub fn local() -> (r: Secrets)
        ensures
            r.data_db_url@ == "postgres://postgres@localhost/motoko_data"@,
            r.meta_db_url@ == "postgres://postgres@localhost/motoko_meta"@,
            r.google_oauth2_client_id_android@ == "dummy"@,
            r.google_oauth2_client_id_ios@ == "dummy"@,
            r.jwt_secret@ == "dummy"@,
            r.aws_access_key_id@ == "dummy"@,
            r.aws_secret_access_key@ == "dummy"@,
    {
        Secrets {
            data_db_url: "postgres://postgres@localhost/motoko_data".to_owned(),
            meta_db_url: "postgres://postgres@localhost/motoko_meta".to_owned(),
            google_oauth2_client_id_android: "dummy".to_owned(),
            google_oauth2_client_id_ios: "dummy".to_owned(),
            jwt_secret: "dummy".to_owned(),
            aws_access_key_id: "dummy".to_owned(),
            aws_secret_access_key: "dummy".to_owned(),
        }
    }
}

} // verus!
