//! The game servers and the addresses of their files.

use vstd::prelude::*;

use vstd::string::StringExecFns;

verus! {

/// A game server.
#[derive(Debug, Clone, Copy, PartialEq, Eq, Structural)]
pub enum Server {
    En,
    Cn,
    Bl,
    Jp,
    Kr,
    Tw,
}

impl Server {
    /// The display name of the server.
    pub open spec fn spec_as_str(self) -> Seq<char> {
        match self {
            Server::En => "EN (Yostar)"@,
            Server::Cn => "CN (Hypergryph)"@,
            Server::Bl => "CN (Bilibili)"@,
            Server::Jp => "JP (Yostar)"@,
            Server::Kr => "KR (Yostar)"@,
            Server::Tw => "TW (Hypergryph)"@,
        }
    }

    /// The short name of the server.
    pub open spec fn spec_name(self) -> Seq<char> {
        match self {
            Server::En => "en"@,
            Server::Cn => "cn"@,
            Server::Bl => "bl"@,
            Server::Jp => "jp"@,
            Server::Kr => "kr"@,
            Server::Tw => "tw"@,
        }
    }

    /// The base address of the asset bundles; both Chinese servers share one.
    pub open spec fn spec_cdn_base_url(self) -> Seq<char> {
        match self {
            Server::En => "https://ark-us-static-online.yo-star.com/assetbundle"@,
            Server::Cn | Server::Bl => "https://ak.hycdn.cn/assetbundle"@,
            Server::Jp => "https://ark-jp-static-online.yo-star.com/assetbundle"@,
            Server::Kr => "https://ark-kr-static-online-1300509597.yo-star.com/assetbundle"@,
            Server::Tw => "https://ak-tw.hg-cdn.com/assetbundle"@,
        }
    }

    /// The address of the version information.
    pub open spec fn spec_version_url(self) -> Seq<char> {
        match self {
            Server::En => "https://ark-us-static-online.yo-star.com/assetbundle/official/Android/version"@,
            Server::Cn => "https://ak-conf.hypergryph.com/config/prod/official/Android/version"@,
            Server::Bl => "https://ak-conf.hypergryph.com/config/prod/b/Android/version"@,
            Server::Tw => "https://ak-conf-tw.gryphline.com/config/prod/official/Android/version"@,
            Server::Jp => "https://ark-jp-static-online.yo-star.com/assetbundle/official/Android/version"@,
            Server::Kr => "https://ark-kr-static-online-1300509597.yo-star.com/assetbundle/official/Android/version"@,
        }
    }

    /// The channel whose assets the server serves: `bilibili` for the
    /// Bilibili server, `official` for all others.
    pub open spec fn spec_asset_tag(self) -> Seq<char> {
        match self {
            Server::Bl => "bilibili"@,
            _ => "official"@,
        }
    }

    /// The address of an asset file:
    /// `{cdn base}/{tag}/Android/assets/{res_version}/{file_name}`.
    pub open spec fn spec_asset_url(self, res_version: Seq<char>, file_name: Seq<char>) -> Seq<char> {
        self.spec_cdn_base_url() + "/"@ + self.spec_asset_tag() + "/Android/assets/"@ + res_version + "/"@ + file_name
    }

    /// Every asset address of a server lies under its base address.
    pub proof fn asset_urls_lie_under_base(self, res_version: Seq<char>, file_name: Seq<char>)
        ensures
            self.spec_cdn_base_url().is_prefix_of(self.spec_asset_url(res_version, file_name)),
    {
        let base = self.spec_cdn_base_url();
        let url = self.spec_asset_url(res_version, file_name);
        assert(url.take(base.len() as int) =~= base);
    }

    pub fn as_str(&self) -> (s: &'static str)
        ensures
            s@ == self.spec_as_str(),
    {
        match self {
            Server::En => "EN (Yostar)",
            Server::Cn => "CN (Hypergryph)",
            Server::Bl => "CN (Bilibili)",
            Server::Jp => "JP (Yostar)",
            Server::Kr => "KR (Yostar)",
            Server::Tw => "TW (Hypergryph)",
        }
    }

    pub fn name(&self) -> (s: &'static str)
        ensures
            s@ == self.spec_name(),
    {
        match self {
            Server::En => "en",
            Server::Cn => "cn",
            Server::Bl => "bl",
            Server::Jp => "jp",
            Server::Kr => "kr",
            Server::Tw => "tw",
        }
    }

    pub fn cdn_base_url(&self) -> (s: &'static str)
        ensures
            s@ == self.spec_cdn_base_url(),
    {
        match self {
            Server::En => "https://ark-us-static-online.yo-star.com/assetbundle",
            Server::Cn | Server::Bl => "https://ak.hycdn.cn/assetbundle",
            Server::Jp => "https://ark-jp-static-online.yo-star.com/assetbundle",
            Server::Kr => "https://ark-kr-static-online-1300509597.yo-star.com/assetbundle",
            Server::Tw => "https://ak-tw.hg-cdn.com/assetbundle",
        }
    }

    pub fn version_url(&self) -> (s: &'static str)
        ensures
            s@ == self.spec_version_url(),
    {
        match self {
            Server::En => "https://ark-us-static-online.yo-star.com/assetbundle/official/Android/version",
            Server::Cn => "https://ak-conf.hypergryph.com/config/prod/official/Android/version",
            Server::Bl => "https://ak-conf.hypergryph.com/config/prod/b/Android/version",
            Server::Tw => "https://ak-conf-tw.gryphline.com/config/prod/official/Android/version",
            Server::Jp => "https://ark-jp-static-online.yo-star.com/assetbundle/official/Android/version",
            Server::Kr => "https://ark-kr-static-online-1300509597.yo-star.com/assetbundle/official/Android/version",
        }
    }

    pub fn asset_tag(&self) -> (s: &'static str)
        ensures
            s@ == self.spec_asset_tag(),
    {
        match self {
            Server::Bl => "bilibili",
            _ => "official",
        }
    }

    pub fn asset_url(&self, res_version: &str, file_name: &str) -> (s: String)
        ensures
            s@ == self.spec_asset_url(res_version@, file_name@),
    {
        let mut s = String::from_str(self.cdn_base_url());
        s.append("/");
        s.append(self.asset_tag());
        s.append("/Android/assets/");
        s.append(res_version);
        s.append("/");
        s.append(file_name);
        s
    }

    /// The address of the list of files of version `res_version`.
    pub fn hot_update_url(&self, res_version: &str) -> (s: String)
        ensures
            s@ == self.spec_asset_url(res_version@, "hot_update_list.json"@),
    {
        self.asset_url(res_version, "hot_update_list.json")
    }
}

} // verus!
