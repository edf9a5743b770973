use sysdiff::download::{plan_download, ArchiveKind, PlanError};

const DEBIAN: &str = "ID=debian\nVERSION_ID=\"12\"\nVERSION_CODENAME=bookworm\n";
const UBUNTU: &str = "ID=ubuntu\nVERSION_ID=\"22.04\"\nVERSION_CODENAME=jammy\n";

#[test]
fn debian_plan() {
    let p = plan_download(DEBIAN, "debian", "12", "x86_64").ok().unwrap();
    assert_eq!(p.file_name, "debian-12-generic-amd64.qcow2");
    assert_eq!(
        p.url,
        "https://cloud.debian.org/images/cloud/bookworm/latest/debian-12-generic-amd64.qcow2"
    );
    assert_eq!(p.archive, ArchiveKind::Qcow2);
}

#[test]
fn debian_other_arch_kept() {
    let p = plan_download(DEBIAN, "debian", "12", "arm64").ok().unwrap();
    assert_eq!(p.file_name, "debian-12-generic-arm64.qcow2");
}

#[test]
fn ubuntu_plan() {
    let p = plan_download(UBUNTU, "ubuntu", "22.04", "x86_64").ok().unwrap();
    assert_eq!(p.file_name, "ubuntu-22.04-server-cloudimg-amd64.qcow2");
    assert_eq!(
        p.url,
        "https://cloud-images.ubuntu.com/releases/jammy/release/ubuntu-22.04-server-cloudimg-amd64.qcow2"
    );
    assert_eq!(p.archive, ArchiveKind::Qcow2);
}

#[test]
fn missing_codenames() {
    assert_eq!(plan_download("ID=debian\n", "debian", "12", "x86_64").err(), Some(PlanError::NoDebianCodename));
    assert_eq!(plan_download("ID=ubuntu\n", "ubuntu", "22.04", "x86_64").err(), Some(PlanError::NoUbuntuCodename));
}

#[test]
fn alpine_plan() {
    let p = plan_download("ID=alpine\n", "alpine", "3.19.1", "x86_64").ok().unwrap();
    assert_eq!(p.file_name, "alpine-minirootfs-3.19.1-x86_64.tar.gz");
    assert_eq!(
        p.url,
        "https://dl-cdn.alpinelinux.org/alpine/v3.19/releases/x86_64/alpine-minirootfs-3.19.1-x86_64.tar.gz"
    );
    assert_eq!(p.archive, ArchiveKind::TarGz);
}

#[test]
fn alpine_short_version() {
    let p = plan_download("", "alpine", "3", "aarch64").ok().unwrap();
    assert_eq!(p.url, "https://dl-cdn.alpinelinux.org/alpine/v/releases/aarch64/alpine-minirootfs-3-aarch64.tar.gz");
}

#[test]
fn other_plan() {
    let p = plan_download("ID=fedora\n", "fedora", "39", "x86_64").ok().unwrap();
    assert_eq!(p.file_name, "buildroot-2025.05.tar.xz");
    assert_eq!(p.url, "https://buildroot.org/downloads/buildroot-2025.05.tar.xz");
    assert_eq!(p.archive, ArchiveKind::TarXz);
}

#[test]
fn family_by_substring() {
    // "debian" is tested before "ubuntu", so a name holding both is Debian.
    let p = plan_download(DEBIAN, "ubuntu-debian", "12", "x86_64").ok().unwrap();
    assert_eq!(p.archive, ArchiveKind::Qcow2);
    assert!(p.file_name.starts_with("debian-"));
    let e = plan_download("", "", "", "x86_64").ok().unwrap();
    assert_eq!(e.archive, ArchiveKind::TarXz);
}

#[test]
fn url_ends_with_file_name() {
    for (c, d, v) in [(DEBIAN, "debian", "12"), (UBUNTU, "ubuntu", "22.04"), ("", "alpine", "3.18.4"), ("", "arch", "1")] {
        let p = plan_download(c, d, v, "x86_64").ok().unwrap();
        assert!(p.url.ends_with(&p.file_name));
    }
}
