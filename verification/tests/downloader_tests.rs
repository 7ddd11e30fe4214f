use ak_assets::cli::CliServer;
use ak_assets::downloader::download::{dat_name, download_url, escape, url_path};
use ak_assets::downloader::models::{AbInfo, HotUpdateList, PackInfo, VersionInfo};
use ak_assets::downloader::progress::ProgressTracker;
use ak_assets::downloader::server::Server;

#[test]
fn server_names_and_labels() {
    assert_eq!(Server::En.as_str(), "EN (Yostar)");
    assert_eq!(Server::Bl.as_str(), "CN (Bilibili)");
    assert_eq!(Server::Tw.as_str(), "TW (Hypergryph)");
    assert_eq!(Server::Kr.name(), "kr");
    assert_eq!(Server::Bl.name(), "bl");
}

#[test]
fn both_chinese_servers_share_a_cdn_but_not_a_channel() {
    assert_eq!(Server::Cn.cdn_base_url(), Server::Bl.cdn_base_url());
    assert_eq!(Server::Cn.asset_tag(), "official");
    assert_eq!(Server::Bl.asset_tag(), "bilibili");
    assert_ne!(Server::Cn.asset_url("1", "a"), Server::Bl.asset_url("1", "a"));
}

#[test]
fn version_urls() {
    assert_eq!(
        Server::Bl.version_url(),
        "https://ak-conf.hypergryph.com/config/prod/b/Android/version"
    );
    assert_eq!(
        Server::Jp.version_url(),
        "https://ark-jp-static-online.yo-star.com/assetbundle/official/Android/version"
    );
}

#[test]
fn asset_and_hot_update_urls() {
    assert_eq!(
        Server::En.asset_url("24-01-01-abc", "x.dat"),
        "https://ark-us-static-online.yo-star.com/assetbundle/official/Android/assets/24-01-01-abc/x.dat"
    );
    assert_eq!(
        Server::Bl.hot_update_url("v1"),
        "https://ak.hycdn.cn/assetbundle/bilibili/Android/assets/v1/hot_update_list.json"
    );
    let url = Server::Kr.asset_url("r", "f");
    assert!(url.starts_with(Server::Kr.cdn_base_url()));
}

#[test]
fn file_names_become_address_paths() {
    assert_eq!(url_path("avg/imgs/bg_1.ab"), "avg_imgs_bg_1.dat");
    assert_eq!(url_path("a.b/c#d.e.ab"), "a.b_c__d.e.dat");
    assert_eq!(url_path("no_extension"), "no_extension");
    assert_eq!(url_path("dir.v2/file"), "dir.dat");
    assert_eq!(escape("a/#/b"), "a____b");
    assert!(!escape("x/y#z").contains('/'));
    assert!(!escape("x/y#z").contains('#'));
}

#[test]
fn download_url_of_a_listed_file() {
    assert_eq!(
        download_url(&Server::Cn, "v9", "chararts/char_002.ab"),
        "https://ak.hycdn.cn/assetbundle/official/Android/assets/v9/chararts_char_002.dat"
    );
}

#[test]
fn progress_records_the_latest_checksum() {
    let mut t = ProgressTracker::new("out/downloaded.json".to_string());
    assert_eq!(t.progress_file(), "out/downloaded.json");
    assert!(!t.is_up_to_date("a.ab", "111"));
    t.mark_completed("a.ab".to_string(), "111".to_string());
    assert!(t.is_up_to_date("a.ab", "111"));
    assert!(!t.is_up_to_date("a.ab", "222"));
    assert!(!t.is_up_to_date("b.ab", "111"));
    t.mark_completed("b.ab".to_string(), "333".to_string());
    t.mark_completed("a.ab".to_string(), "222".to_string());
    assert!(t.is_up_to_date("a.ab", "222"));
    assert!(!t.is_up_to_date("a.ab", "111"));
    assert!(t.is_up_to_date("b.ab", "333"));
    assert_eq!(t.entries().len(), 2);
}

#[test]
fn cli_names_convert_to_servers() {
    assert_eq!(Server::from(CliServer::En), Server::En);
    assert_eq!(Server::from(CliServer::Cn), Server::Cn);
    assert_eq!(Server::from(CliServer::Bl), Server::Bl);
    assert_eq!(Server::from(CliServer::Jp), Server::Jp);
    assert_eq!(Server::from(CliServer::Kr), Server::Kr);
    let tw: Server = CliServer::Tw.into();
    assert_eq!(tw, Server::Tw);
}

#[test]
fn documents_hold_their_fields() {
    let v = VersionInfo { res_version: "r1".to_string(), client_version: "c1".to_string() };
    let list = HotUpdateList {
        pack_infos: vec![PackInfo { name: "p".to_string(), total_size: None }],
        ab_infos: vec![AbInfo {
            name: "a.ab".to_string(),
            total_size: 10,
            ab_size: 8,
            md5: "m".to_string(),
            pid: Some("p".to_string()),
        }],
    };
    assert_eq!(v.clone().res_version, "r1");
    assert_eq!(list.ab_infos[0].pid.as_deref(), Some("p"));
    assert_eq!(list.pack_infos[0].total_size, None);
}

#[test]
fn extension_is_replaced_from_the_last_dot() {
    assert_eq!(dat_name("a.b.c"), "a.b.dat");
    assert_eq!(dat_name(".hidden"), ".dat");
    assert_eq!(dat_name("dir.v/file"), "dir.dat");
    assert_eq!(dat_name("line\n.ab"), "line\n.dat");
    assert_eq!(dat_name("plain"), "plain");
}
