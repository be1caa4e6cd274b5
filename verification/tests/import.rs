use update_delivery_system::client::import::normalize_github_release_url;

#[test]
fn normalizes_github_latest_release_url() {
    let url = normalize_github_release_url("https://github.com/MindWorkAI/AI-Studio/releases/latest").ok().unwrap();
    assert_eq!(url.as_str(), "https://github.com/MindWorkAI/AI-Studio/releases/latest/download/latest.json");
}

#[test]
fn normalizes_github_tag_url() {
    let url = normalize_github_release_url("https://github.com/MindWorkAI/AI-Studio/releases/tag/v26.7.2").ok().unwrap();
    assert_eq!(url.as_str(), "https://github.com/MindWorkAI/AI-Studio/releases/download/v26.7.2/latest.json");
}

use update_delivery_system::client::import::{
    artifact_field_name, artifact_file_name, artifact_path, parse_url, plan_local_artifact,
    plan_remote_artifact, sha256_hex, PreparedUpload, TauriStaticPlatform,
};
use update_delivery_system::errors::UdsError;

#[test]
fn normalizing_keeps_latest_json_download_and_foreign_urls() {
    let direct = "https://example.org/app/latest.json";
    assert_eq!(normalize_github_release_url(direct).ok().unwrap().as_str(), direct);
    let download = "https://github.com/o/r/releases/download/v1/app.msi";
    assert_eq!(normalize_github_release_url(download).ok().unwrap().as_str(), download);
    let foreign = "https://example.org/o/r/releases/tag/v1";
    assert_eq!(normalize_github_release_url(foreign).ok().unwrap().as_str(), foreign);
    let short_tag = "https://github.com/o/r/releases/tag";
    assert_eq!(
        normalize_github_release_url(short_tag).ok().unwrap().as_str(),
        "https://github.com/o/r/releases/latest/download/latest.json"
    );
    let repo = "https://github.com/o/r";
    assert_eq!(normalize_github_release_url(repo).ok().unwrap().as_str(), repo);
    assert!(matches!(normalize_github_release_url("not a url"), Err(UdsError::BadRequest(_))));
}

#[test]
fn artifact_names_come_from_the_last_path_segment() {
    let url = parse_url("https://example.org/dl/app_1.0_x64.msi").ok().unwrap();
    assert_eq!(artifact_file_name(&url).ok().unwrap(), "app_1.0_x64.msi");
    let dir = parse_url("https://example.org/dl/").ok().unwrap();
    assert!(matches!(artifact_file_name(&dir), Err(UdsError::BadRequest(_))));
    assert_eq!(artifact_field_name(0), "artifact_0");
    assert_eq!(artifact_field_name(12), "artifact_12");
}

#[test]
fn remote_artifacts_resolve_relative_urls() {
    let base = parse_url("https://example.org/releases/latest.json").ok().unwrap();
    let platform = TauriStaticPlatform { url: "files/app.tar.gz".into(), signature: "sig".into() };
    let (plan, url) = plan_remote_artifact(2, "linux-x86_64", &platform, &base).ok().unwrap();
    assert_eq!(url.as_str(), "https://example.org/releases/files/app.tar.gz");
    assert_eq!(plan.file_name, "app.tar.gz");
    assert_eq!(plan.field_name, "artifact_2");
    let absolute = TauriStaticPlatform { url: "https://cdn.example/x/a.dmg".into(), signature: "s".into() };
    let (plan, url) = plan_remote_artifact(0, "darwin", &absolute, &base).ok().unwrap();
    assert_eq!(url.as_str(), "https://cdn.example/x/a.dmg");
    assert_eq!(plan.file_name, "a.dmg");
}

#[test]
fn local_artifacts_take_names_from_urls_or_paths() {
    let from_url = TauriStaticPlatform { url: "https://cdn.example/x/a.dmg".into(), signature: "s".into() };
    assert_eq!(plan_local_artifact(1, "darwin", &from_url).ok().unwrap().file_name, "a.dmg");
    let from_path = TauriStaticPlatform { url: "build/out/app.AppImage".into(), signature: "s".into() };
    let plan = plan_local_artifact(4, "linux", &from_path).ok().unwrap();
    assert_eq!(plan.file_name, "app.AppImage");
    assert_eq!(plan.field_name, "artifact_4");
    let nothing = TauriStaticPlatform { url: "..".into(), signature: "s".into() };
    assert!(matches!(plan_local_artifact(0, "x", &nothing), Err(UdsError::BadRequest(_))));
}

#[test]
fn artifacts_are_recorded_with_size_and_digest() {
    assert_eq!(sha256_hex(b"abc"), "ba7816bf8f01cfea414140de5dae2223b00361a396177a9cb410ff61f20015ad");
    let mut upload = PreparedUpload::new("1.0.0".into(), None, "notes".into());
    let platform = TauriStaticPlatform { url: "a.msi".into(), signature: "sig".into() };
    let plan = plan_local_artifact(0, "windows", &platform).ok().unwrap();
    upload.add_artifact(
        "windows".into(),
        &platform,
        plan,
        "/tmp/a.msi".into(),
        "/tmp/a.msi".into(),
        b"abc",
    );
    assert_eq!(upload.artifacts.len(), 1);
    let artifact = &upload.artifacts[0];
    assert_eq!(artifact.size, 3);
    assert_eq!(artifact.sha256, "ba7816bf8f01cfea414140de5dae2223b00361a396177a9cb410ff61f20015ad");
    assert_eq!(artifact.field_name, "artifact_0");
    assert_eq!(artifact.path, "/tmp/a.msi");
    assert_eq!(artifact.source_url, "/tmp/a.msi");
    let entry = &upload.metadata.platforms["windows"];
    assert_eq!(entry.file_field, "artifact_0");
    assert_eq!(entry.file_name, "a.msi");
    assert_eq!(entry.signature, "sig");
    assert_eq!(upload.metadata.version, "1.0.0");
}

fn bad_request_message(result: Result<impl Sized, UdsError>) -> String {
    match result {
        Err(UdsError::BadRequest(message)) => message,
        _ => panic!("expected a bad request"),
    }
}

#[test]
fn refusals_name_what_went_wrong() {
    let message = bad_request_message(normalize_github_release_url("not a url"));
    assert!(message.starts_with("invalid URL: "));
    assert!(message.len() > "invalid URL: ".len());
    let dir = parse_url("https://example.org/dir/").ok().unwrap();
    assert_eq!(
        bad_request_message(artifact_file_name(&dir)),
        "could not determine artifact file name from https://example.org/dir/"
    );
    let nothing = TauriStaticPlatform { url: "..".into(), signature: "s".into() };
    assert_eq!(
        bad_request_message(plan_local_artifact(0, "linux", &nothing)),
        "could not determine artifact file name for linux"
    );
    let base = parse_url("https://example.org/releases/").ok().unwrap();
    let to_dir = TauriStaticPlatform { url: "files/".into(), signature: "s".into() };
    assert_eq!(
        bad_request_message(plan_remote_artifact(0, "linux", &to_dir, &base)),
        "could not determine artifact file name from https://example.org/releases/files/"
    );
}

#[test]
fn local_and_remote_artifacts_are_kept_in_their_directories() {
    let mut upload = PreparedUpload::new("2.0.0".into(), Some("2024-01-01".into()), "n".into());
    let local = TauriStaticPlatform { url: "bundle/app.tar.gz".into(), signature: "sl".into() };
    let plan = plan_local_artifact(0, "linux", &local).ok().unwrap();
    assert_eq!(artifact_path("/srv/build", &plan), "/srv/build/app.tar.gz");
    upload.add_local_artifact("linux".into(), &local, plan, "/srv/build", b"");
    assert_eq!(upload.artifacts[0].path, "/srv/build/app.tar.gz");
    assert_eq!(upload.artifacts[0].source_url, "/srv/build/app.tar.gz");
    assert_eq!(upload.artifacts[0].size, 0);
    assert_eq!(upload.artifacts[0].sha256, "e3b0c44298fc1c149afbf4c8996fb92427ae41e4649b934ca495991b7852b855");

    let base = parse_url("https://example.org/releases/latest.json").ok().unwrap();
    let remote = TauriStaticPlatform { url: "https://cdn.example/v1/app.msi".into(), signature: "sr".into() };
    let (plan, url) = plan_remote_artifact(1, "windows", &remote, &base).ok().unwrap();
    upload.add_remote_artifact("windows".into(), &remote, plan, &url, "/tmp/uds-up", b"abc");
    assert_eq!(upload.artifacts.len(), 2);
    assert_eq!(upload.artifacts[1].path, "/tmp/uds-up/app.msi");
    assert_eq!(upload.artifacts[1].source_url, "https://cdn.example/v1/app.msi");
    assert_eq!(upload.artifacts[1].field_name, "artifact_1");
    assert_eq!(upload.metadata.platforms["windows"].signature, "sr");
    assert_eq!(upload.metadata.platforms["linux"].file_name, "app.tar.gz");
}

#[test]
fn a_finished_upload_covers_every_platform_in_key_order() {
    let mut platforms = std::collections::BTreeMap::new();
    platforms.insert("windows".to_string(), TauriStaticPlatform { url: "w/app.msi".into(), signature: "sw".into() });
    platforms.insert("darwin".to_string(), TauriStaticPlatform { url: "d/app.dmg".into(), signature: "sd".into() });
    platforms.insert("linux".to_string(), TauriStaticPlatform { url: "l/app.tar.gz".into(), signature: "sl".into() });
    let mut upload = PreparedUpload::new("3.1.0".into(), None, "notes".into());
    for (index, (platform, release)) in platforms.iter().enumerate() {
        let plan = plan_local_artifact(index, platform, release).ok().unwrap();
        upload.add_local_artifact(platform.clone(), release, plan, "dist", b"x");
    }
    let order: Vec<(&str, &str)> =
        upload.artifacts.iter().map(|a| (a.platform.as_str(), a.field_name.as_str())).collect();
    assert_eq!(order, [("darwin", "artifact_0"), ("linux", "artifact_1"), ("windows", "artifact_2")]);
    assert_eq!(upload.metadata.platforms.len(), 3);
    assert_eq!(upload.metadata.platforms["linux"].file_field, "artifact_1");
    assert_eq!(upload.metadata.platforms["windows"].signature, "sw");
    assert_eq!(upload.metadata.version, "3.1.0");
}
