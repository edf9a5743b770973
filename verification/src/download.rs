//! Which reference image to fetch for a target system, and from where.

use vstd::prelude::*;
use vstd::utf8::{decode_utf8, encode_utf8, is_char_boundary};
use vstd::string::StringSliceAdditionalSpecFns;
use crate::os_release::{get_codename, os_release_setting};
use crate::text::{concat, contains_seq, str_contains, str_eq};

verus! {

broadcast use vstd::utf8::encode_utf8_decode_utf8;

/// How a downloaded reference image is packed.
#[derive(Debug, Clone, Copy, PartialEq, Eq, Structural)]
pub enum ArchiveKind {
    /// A QEMU disk image whose file systems are read through libguestfs.
    Qcow2,
    /// A gzip-compressed tar archive.
    TarGz,
    /// An xz-compressed tar archive.
    TarXz,
}

/// Why no reference image can be chosen.
#[derive(Debug, Clone, Copy, PartialEq, Eq, Structural)]
pub enum PlanError {
    /// A Debian target whose os-release names no `VERSION_CODENAME`.
    NoDebianCodename,
    /// An Ubuntu target whose os-release names no `VERSION_CODENAME`.
    NoUbuntuCodename,
}

/// The reference image to fetch: the local file name it is saved under, the
/// URL it comes from, and how it is packed.
pub struct DownloadPlan {
    pub file_name: String,
    pub url: String,
    pub archive: ArchiveKind,
}

/// The distribution families that have a reference image of their own.
#[derive(Debug, Clone, Copy, PartialEq, Eq, Structural)]
pub enum Family {
    Debian,
    Ubuntu,
    Alpine,
    Other,
}

/// The family of the distribution `ID`; a name is tested for `debian`, then
/// `ubuntu`, then `alpine` as a substring.
pub open spec fn family_of(distro: Seq<char>) -> Family {
    if contains_seq(distro, "debian"@) {
        Family::Debian
    } else if contains_seq(distro, "ubuntu"@) {
        Family::Ubuntu
    } else if contains_seq(distro, "alpine"@) {
        Family::Alpine
    } else {
        Family::Other
    }
}

/// The architecture as the Debian and Ubuntu image names spell it.
pub open spec fn debian_arch(arch: Seq<char>) -> Seq<char> {
    if arch == "x86_64"@ {
        "amd64"@
    } else {
        arch
    }
}

/// The byte length of `version` less two, and at least zero.
pub open spec fn version_cut(version: Seq<char>) -> int {
    let n = encode_utf8(version).len() as int;
    if n >= 2 {
        n - 2
    } else {
        0
    }
}

/// The Alpine release branch of `version`: its UTF-8 bytes without the last
/// two (`3.19.1` gives `3.19`).
pub open spec fn short_version(version: Seq<char>) -> Seq<char> {
    decode_utf8(encode_utf8(version).take(version_cut(version)))
}

/// The inputs on which choosing an image does not fail on a byte index:
/// for an Alpine target, the byte length of the version less two falls on
/// a character boundary.
pub open spec fn plan_inputs_ok(distro: Seq<char>, version: Seq<char>) -> bool {
    family_of(distro) is Alpine ==> is_char_boundary(encode_utf8(version), version_cut(version))
}

/// The image chosen for a target with os-release text `contents`,
/// distribution `distro`, version `version` and architecture `arch`, as
/// (file name, URL, packing).
pub open spec fn planned_download(
    contents: Seq<char>,
    distro: Seq<char>,
    version: Seq<char>,
    arch: Seq<char>,
) -> Result<(Seq<char>, Seq<char>, ArchiveKind), PlanError> {
    let codename = os_release_setting(contents, "VERSION_CODENAME"@);
    match family_of(distro) {
        Family::Debian => match codename {
            Some(c) => {
                let file = "debian-"@ + version + "-generic-"@ + debian_arch(arch) + ".qcow2"@;
                Ok(
                    (
                        file,
                        "https://cloud.debian.org/images/cloud/"@ + c + "/latest/"@ + file,
                        ArchiveKind::Qcow2,
                    ),
                )
            },
            None => Err(PlanError::NoDebianCodename),
        },
        Family::Ubuntu => match codename {
            Some(c) => {
                let file = "ubuntu-"@ + version + "-server-cloudimg-"@ + debian_arch(arch)
                    + ".qcow2"@;
                Ok(
                    (
                        file,
                        "https://cloud-images.ubuntu.com/releases/"@ + c + "/release/"@ + file,
                        ArchiveKind::Qcow2,
                    ),
                )
            },
            None => Err(PlanError::NoUbuntuCodename),
        },
        Family::Alpine => {
            let file = "alpine-minirootfs-"@ + version + "-"@ + arch + ".tar.gz"@;
            Ok(
                (
                    file,
                    "https://dl-cdn.alpinelinux.org/alpine/v"@ + short_version(version)
                        + "/releases/"@ + arch + "/"@ + file,
                    ArchiveKind::TarGz,
                ),
            )
        },
        Family::Other => Ok(
            (
                "buildroot-2025.05.tar.xz"@,
                "https://buildroot.org/downloads/buildroot-2025.05.tar.xz"@,
                ArchiveKind::TarXz,
            ),
        ),
    }
}

fn join3(a: &str, b: &str, c: &str) -> (r: String)
    ensures
        r@ == a@ + b@ + c@,
{
    let ab = concat(a, b);
    concat(ab.as_str(), c)
}

fn join5(a: &str, b: &str, c: &str, d: &str, e: &str) -> (r: String)
    ensures
        r@ == a@ + b@ + c@ + d@ + e@,
{
    let abc = join3(a, b, c);
    join3(abc.as_str(), d, e)
}

/// The family of the distribution `ID` `distro`.
pub fn family(distro: &str) -> (f: Family)
    ensures
        f == family_of(distro@),
{
    if str_contains(distro, "debian") {
        Family::Debian
    } else if str_contains(distro, "ubuntu") {
        Family::Ubuntu
    } else if str_contains(distro, "alpine") {
        Family::Alpine
    } else {
        Family::Other
    }
}

/// Whether `plan_download` accepts `distro` and `version`: for an Alpine
/// target, the byte length of the version less two must fall on a
/// character boundary.
pub fn plan_inputs_valid(distro: &str, version: &str) -> (r: bool)
    ensures
        r == plan_inputs_ok(distro@, version@),
{
    match family(distro) {
        Family::Alpine => {
            let n = version.as_bytes().len();
            let cut = if n >= 2 { n - 2 } else { 0 };
            assert(version.spec_bytes() == encode_utf8(version@));
            assert(cut as int == version_cut(version@));
            version.is_char_boundary(cut)
        },
        _ => true,
    }
}

/// Chooses the reference image for a target whose os-release text is
/// `contents`, with distribution `ID` `distro`, `VERSION_ID` `version` and
/// architecture `arch`.  Debian and Ubuntu need the `VERSION_CODENAME` of
/// `contents`; the error says which of them lacked it.
pub fn plan_download(contents: &str, distro: &str, version: &str, arch: &str) -> (r: Result<
    DownloadPlan,
    PlanError,
>)
    requires
        plan_inputs_ok(distro@, version@),
    ensures
        match r {
            Ok(p) => planned_download(contents@, distro@, version@, arch@) == Ok::<
                (Seq<char>, Seq<char>, ArchiveKind),
                PlanError,
            >((p.file_name@, p.url@, p.archive)),
            Err(e) => planned_download(contents@, distro@, version@, arch@) == Err::<
                (Seq<char>, Seq<char>, ArchiveKind),
                PlanError,
            >(e),
        },
{
    proof {
        reveal_strlit("x86_64");
        reveal_strlit("amd64");
    }
    let arch_name: &str = if str_eq(arch, "x86_64") {
        "amd64"
    } else {
        arch
    };
    assert(arch_name@ == debian_arch(arch@));
    match family(distro) {
        Family::Debian => {
            match get_codename(contents) {
                Some(c) => {
                    let file = join5("debian-", version, "-generic-", arch_name, ".qcow2");
                    let url = join3(
                        "https://cloud.debian.org/images/cloud/",
                        c.as_str(),
                        "/latest/",
                    );
                    let url = concat(url.as_str(), file.as_str());
                    Ok(DownloadPlan { file_name: file, url, archive: ArchiveKind::Qcow2 })
                },
                None => Err(PlanError::NoDebianCodename),
            }
        },
        Family::Ubuntu => {
            match get_codename(contents) {
                Some(c) => {
                    let file = join5("ubuntu-", version, "-server-cloudimg-", arch_name, ".qcow2");
                    let url = join3(
                        "https://cloud-images.ubuntu.com/releases/",
                        c.as_str(),
                        "/release/",
                    );
                    let url = concat(url.as_str(), file.as_str());
                    Ok(DownloadPlan { file_name: file, url, archive: ArchiveKind::Qcow2 })
                },
                None => Err(PlanError::NoUbuntuCodename),
            }
        },
        Family::Alpine => {
            let file = join5("alpine-minirootfs-", version, "-", arch, ".tar.gz");
            let n = version.as_bytes().len();
            let cut = if n >= 2 { n - 2 } else { 0 };
            assert(version.spec_bytes() == encode_utf8(version@));
            assert(n as int == encode_utf8(version@).len());
            assert(cut as int == version_cut(version@));
            let (short, _) = version.split_at(cut);
            assert(encode_utf8(short@) =~= encode_utf8(version@).take(version_cut(version@)));
            assert(short@ == short_version(version@));
            let url = join5(
                "https://dl-cdn.alpinelinux.org/alpine/v",
                short,
                "/releases/",
                arch,
                "/",
            );
            let url = concat(url.as_str(), file.as_str());
            Ok(DownloadPlan { file_name: file, url, archive: ArchiveKind::TarGz })
        },
        Family::Other => {
            let file = String::from_str("buildroot-2025.05.tar.xz");
            let url = String::from_str("https://buildroot.org/downloads/buildroot-2025.05.tar.xz");
            Ok(DownloadPlan { file_name: file, url, archive: ArchiveKind::TarXz })
        },
    }
}


/// `suffix` ends `s`.
pub open spec fn ends_with_seq(s: Seq<char>, suffix: Seq<char>) -> bool {
    suffix.len() <= s.len() && s.skip(s.len() - suffix.len()) == suffix
}

proof fn lemma_ends_with_concat(a: Seq<char>, b: Seq<char>)
    ensures
        ends_with_seq(a + b, b),
{
    assert((a + b).skip(a.len() as int) =~= b);
}

/// The image is saved under the last component of the URL it comes from:
/// whenever an image is chosen, its file name ends its URL.
pub proof fn law_url_ends_with_file_name(
    contents: Seq<char>,
    distro: Seq<char>,
    version: Seq<char>,
    arch: Seq<char>,
)
    ensures
        planned_download(contents, distro, version, arch) matches Ok((file, url, _)) ==> ends_with_seq(
            url,
            file,
        ),
{
    if let Ok((file, url, _)) = planned_download(contents, distro, version, arch) {
        match family_of(distro) {
            Family::Debian => {
                let c = os_release_setting(contents, "VERSION_CODENAME"@).unwrap();
                lemma_ends_with_concat(
                    "https://cloud.debian.org/images/cloud/"@ + c + "/latest/"@,
                    file,
                );
            },
            Family::Ubuntu => {
                let c = os_release_setting(contents, "VERSION_CODENAME"@).unwrap();
                lemma_ends_with_concat(
                    "https://cloud-images.ubuntu.com/releases/"@ + c + "/release/"@,
                    file,
                );
            },
            Family::Alpine => {
                lemma_ends_with_concat(
                    "https://dl-cdn.alpinelinux.org/alpine/v"@ + short_version(version)
                        + "/releases/"@ + arch + "/"@,
                    file,
                );
            },
            Family::Other => {
                reveal_strlit("buildroot-2025.05.tar.xz");
                reveal_strlit("https://buildroot.org/downloads/buildroot-2025.05.tar.xz");
                assert("https://buildroot.org/downloads/"@ + "buildroot-2025.05.tar.xz"@
                    =~= "https://buildroot.org/downloads/buildroot-2025.05.tar.xz"@) by {
                    reveal_strlit("https://buildroot.org/downloads/");
                }
                lemma_ends_with_concat("https://buildroot.org/downloads/"@, file);
            },
        }
    }
}


proof fn lemma_ends_with_dash(p: Seq<char>, arch: Seq<char>, ext: Seq<char>)
    requires
        p.len() > 0,
        p.last() == '-',
    ensures
        ends_with_seq(p + arch + ext, seq!['-'] + arch + ext),
{
    assert(p + arch + ext =~= p.drop_last() + (seq!['-'] + arch + ext));
    lemma_ends_with_concat(p.drop_last(), seq!['-'] + arch + ext);
}

/// The chosen image is the one for the requested architecture: a disk
/// image (Debian, Ubuntu) is named `...-ARCH.qcow2`, with `x86_64` spelled
/// `amd64` and any other architecture as requested, and an Alpine archive
/// `...-ARCH.tar.gz`.
pub proof fn law_image_names_the_architecture(
    contents: Seq<char>,
    distro: Seq<char>,
    version: Seq<char>,
    arch: Seq<char>,
)
    ensures
        planned_download(contents, distro, version, arch) matches Ok((file, _, kind)) ==> {
            &&& (kind is Qcow2 && arch != "x86_64"@) ==> ends_with_seq(
                file,
                seq!['-'] + arch + ".qcow2"@,
            )
            &&& (kind is Qcow2 && arch == "x86_64"@) ==> ends_with_seq(
                file,
                seq!['-'] + "amd64"@ + ".qcow2"@,
            )
            &&& kind is TarGz ==> ends_with_seq(file, seq!['-'] + arch + ".tar.gz"@)
        },
{
    reveal_strlit("-generic-");
    reveal_strlit("-server-cloudimg-");
    reveal_strlit("-");
    if let Ok((file, _, kind)) = planned_download(contents, distro, version, arch) {
        match family_of(distro) {
            Family::Debian => {
                let p = "debian-"@ + version + "-generic-"@;
                assert(p.last() == '-');
                lemma_ends_with_dash(p, debian_arch(arch), ".qcow2"@);
            },
            Family::Ubuntu => {
                let p = "ubuntu-"@ + version + "-server-cloudimg-"@;
                assert(p.last() == '-');
                lemma_ends_with_dash(p, debian_arch(arch), ".qcow2"@);
            },
            Family::Alpine => {
                let p = "alpine-minirootfs-"@ + version + "-"@;
                assert(p.last() == '-');
                lemma_ends_with_dash(p, arch, ".tar.gz"@);
            },
            Family::Other => {},
        }
    }
}

/// Two requests that differ only in the architecture, neither of them
/// `x86_64`, choose different images unless both fall back to the one
/// buildroot archive.
pub proof fn law_other_architecture_other_image(
    contents: Seq<char>,
    distro: Seq<char>,
    version: Seq<char>,
    arch1: Seq<char>,
    arch2: Seq<char>,
)
    requires
        arch1 != arch2,
        arch1 != "x86_64"@,
        arch2 != "x86_64"@,
    ensures
        match (
            planned_download(contents, distro, version, arch1),
            planned_download(contents, distro, version, arch2),
        ) {
            (Ok((f1, _, k1)), Ok((f2, _, _))) => !(k1 is TarXz) ==> f1 != f2,
            _ => true,
        },
{
    law_image_names_the_architecture(contents, distro, version, arch1);
    law_image_names_the_architecture(contents, distro, version, arch2);
    if let Ok((f1, _, k1)) = planned_download(contents, distro, version, arch1) {
        if let Ok((f2, _, k2)) = planned_download(contents, distro, version, arch2) {
            if !(k1 is TarXz) && f1 == f2 {
                let (p, e) = match family_of(distro) {
                    Family::Debian => ("debian-"@ + version + "-generic-"@, ".qcow2"@),
                    Family::Ubuntu => ("ubuntu-"@ + version + "-server-cloudimg-"@, ".qcow2"@),
                    _ => ("alpine-minirootfs-"@ + version + "-"@, ".tar.gz"@),
                };
                assert(f1 == p + arch1 + e);
                assert(f2 == p + arch2 + e);
                assert(arch1.len() == arch2.len());
                assert(arch1 =~= (p + arch1 + e).subrange(p.len() as int, (p.len() + arch1.len()) as int));
                assert(arch2 =~= (p + arch2 + e).subrange(p.len() as int, (p.len() + arch2.len()) as int));
            }
        }
    }
}

} // verus!
