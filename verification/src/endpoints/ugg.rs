//! The vendor's endpoints.

use vstd::prelude::*;
use vstd::string::StringExecFns;

use crate::util::dec_str_of_i64;

verus! {

/// One endpoint of the vendor: its home page, the versioned API base
/// URL, or one champion's overview for a patch.
pub enum UggEndpoint<'a> {
    HomePage,
    BaseUrl(&'a str),
    ChampionData(&'a str, i64, &'a str),
}

impl UggEndpoint<'_> {
    /// The URL (or URL fragment, for `ChampionData`) of this endpoint.
    pub open spec fn url_spec(self) -> Seq<char> {
        match self {
            UggEndpoint::HomePage => "https://u.gg"@,
            UggEndpoint::BaseUrl(api_version) => "https://stats2.u.gg/lol/"@ + api_version@,
            UggEndpoint::ChampionData(patch_version, champion_key, overview_version) => {
                "/overview/"@ + patch_version@ + "/ranked_solo_5x5/"@ + dec_str_of_i64(
                    champion_key,
                ) + "/"@ + overview_version@ + ".json"@
            },
        }
    }

    /// Builds the URL (or URL fragment) of this endpoint.
    pub fn url(&self) -> (r: String)
        ensures
            r@ == self.url_spec(),
    {
        match self {
            UggEndpoint::HomePage => "https://u.gg".to_owned(),
            UggEndpoint::BaseUrl(api_version) => {
                let mut out = String::new();
                out.append("https://stats2.u.gg/lol/");
                out.append(api_version);
                proof {
                    assert(out@ =~= self.url_spec());
                }
                out
            },
            UggEndpoint::ChampionData(patch_version, champion_key, overview_version) => {
                let mut out = String::new();
                out.append("/overview/");
                out.append(patch_version);
                out.append("/ranked_solo_5x5/");
                crate::util::append_i64(&mut out, *champion_key);
                out.append("/");
                out.append(overview_version);
                out.append(".json");
                proof {
                    assert(out@ =~= self.url_spec());
                }
                out
            },
        }
    }
}

} // verus!
