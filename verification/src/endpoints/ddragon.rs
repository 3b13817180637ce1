//! The reference-data provider's endpoints.

use vstd::prelude::*;
use vstd::string::StringExecFns;

verus! {

/// One endpoint of the reference-data provider: the version list, or a
/// patch version's champion or rune data.
pub enum DDragonEndpoint<'a> {
    Version,
    ChampionData(&'a str),
    RunesData(&'a str),
}

impl DDragonEndpoint<'_> {
    /// The URL this endpoint is fetched from.
    pub open spec fn url_spec(self) -> Seq<char> {
        match self {
            DDragonEndpoint::Version => "https://ddragon.leagueoflegends.com/api/versions.json"@,
            DDragonEndpoint::ChampionData(version) => "https://ddragon.leagueoflegends.com/cdn/"@
                + version@ + "/data/en_US/champion.json"@,
            DDragonEndpoint::RunesData(version) => "https://ddragon.leagueoflegends.com/cdn/"@
                + version@ + "/data/en_US/runesReforged.json"@,
        }
    }

    /// Builds the URL this endpoint is fetched from.
    pub fn url(&self) -> (r: String)
        ensures
            r@ == self.url_spec(),
    {
        match self {
            DDragonEndpoint::Version => {
                "https://ddragon.leagueoflegends.com/api/versions.json".to_owned()
            },
            DDragonEndpoint::ChampionData(version) => {
                let mut out = String::new();
                out.append("https://ddragon.leagueoflegends.com/cdn/");
                out.append(version);
                out.append("/data/en_US/champion.json");
                proof {
                    assert(out@ =~= self.url_spec());
                }
                out
            },
            DDragonEndpoint::RunesData(version) => {
                let mut out = String::new();
                out.append("https://ddragon.leagueoflegends.com/cdn/");
                out.append(version);
                out.append("/data/en_US/runesReforged.json");
                proof {
                    assert(out@ =~= self.url_spec());
                }
                out
            },
        }
    }
}

} // verus!
