//! The Linux distributions the installer knows, read from `/etc/os-release`.

use vstd::prelude::*;
use crate::models::{spec_major, spec_minor, VersionInfo};
use crate::outside::{lowercase_text, to_lowercase};
use crate::text::{chars_of, contains, contains_str, owned};

verus! {

/// A Linux distribution.
#[derive(Clone, Copy, Debug, PartialEq, Eq, Structural)]
pub enum OsType {
    Debian,
    Raspbian,
    Ubuntu,
    Fedora,
    Centos,
    AlmaLinux,
    Rocky,
    Oracle,
    Arch,
    Alpine,
    Unknown,
}

/// The distribution a lower-case `NAME` names: the first of the known names
/// that it contains, in the order debian, raspbian, ubuntu, fedora, centos,
/// almalinux, rocky, oracle, arch, alpine.
pub open spec fn os_of_name(lower: Seq<char>) -> OsType {
    if contains(lower, "debian"@) {
        OsType::Debian
    } else if contains(lower, "raspbian"@) {
        OsType::Raspbian
    } else if contains(lower, "ubuntu"@) {
        OsType::Ubuntu
    } else if contains(lower, "fedora"@) {
        OsType::Fedora
    } else if contains(lower, "centos"@) {
        OsType::Centos
    } else if contains(lower, "almalinux"@) {
        OsType::AlmaLinux
    } else if contains(lower, "rocky"@) {
        OsType::Rocky
    } else if contains(lower, "oracle"@) {
        OsType::Oracle
    } else if contains(lower, "arch"@) {
        OsType::Arch
    } else if contains(lower, "alpine"@) {
        OsType::Alpine
    } else {
        OsType::Unknown
    }
}

/// The name by which a distribution is known in the `NAME` of
/// `/etc/os-release`, in lower case (none for an unknown one).
pub open spec fn distribution_name(os: OsType) -> Seq<char> {
    match os {
        OsType::Debian => "debian"@,
        OsType::Raspbian => "raspbian"@,
        OsType::Ubuntu => "ubuntu"@,
        OsType::Fedora => "fedora"@,
        OsType::Centos => "centos"@,
        OsType::AlmaLinux => "almalinux"@,
        OsType::Rocky => "rocky"@,
        OsType::Oracle => "oracle"@,
        OsType::Arch => "arch"@,
        OsType::Alpine => "alpine"@,
        OsType::Unknown => Seq::<char>::empty(),
    }
}

/// A name is recognised exactly when it contains the name of a known
/// distribution, and it is recognised as a distribution whose name it
/// contains; a name that contains none of them is unknown.
pub proof fn lemma_os_of_name_is_named(lower: Seq<char>)
    ensures
        os_of_name(lower) != OsType::Unknown ==> contains(lower, distribution_name(os_of_name(lower))),
        os_of_name(lower) == OsType::Unknown <==> forall|o: OsType|
            o != OsType::Unknown ==> !contains(lower, #[trigger] distribution_name(o)),
{
    if os_of_name(lower) == OsType::Unknown {
        assert forall|o: OsType| o != OsType::Unknown implies !contains(lower, #[trigger] distribution_name(o)) by {
            match o {
                OsType::Debian => {},
                OsType::Raspbian => {},
                OsType::Ubuntu => {},
                OsType::Fedora => {},
                OsType::Centos => {},
                OsType::AlmaLinux => {},
                OsType::Rocky => {},
                OsType::Oracle => {},
                OsType::Arch => {},
                OsType::Alpine => {},
                OsType::Unknown => {},
            }
        }
    }
    if forall|o: OsType| o != OsType::Unknown ==> !contains(lower, #[trigger] distribution_name(o)) {
        assert(!contains(lower, distribution_name(OsType::Debian)));
        assert(!contains(lower, distribution_name(OsType::Raspbian)));
        assert(!contains(lower, distribution_name(OsType::Ubuntu)));
        assert(!contains(lower, distribution_name(OsType::Fedora)));
        assert(!contains(lower, distribution_name(OsType::Centos)));
        assert(!contains(lower, distribution_name(OsType::AlmaLinux)));
        assert(!contains(lower, distribution_name(OsType::Rocky)));
        assert(!contains(lower, distribution_name(OsType::Oracle)));
        assert(!contains(lower, distribution_name(OsType::Arch)));
        assert(!contains(lower, distribution_name(OsType::Alpine)));
    }
}

/// The distribution a lower-case `NAME` names.
pub fn os_type_from_name(lower_name: &str) -> (r: OsType)
    ensures
        r == os_of_name(lower_name@),
        r != OsType::Unknown ==> contains(lower_name@, distribution_name(r)),
        r == OsType::Unknown ==> forall|o: OsType|
            o != OsType::Unknown ==> !contains(lower_name@, #[trigger] distribution_name(o)),
{
    proof {
        lemma_os_of_name_is_named(lower_name@);
    }
    let n = chars_of(lower_name);
    if contains_str(&n, "debian") {
        OsType::Debian
    } else if contains_str(&n, "raspbian") {
        OsType::Raspbian
    } else if contains_str(&n, "ubuntu") {
        OsType::Ubuntu
    } else if contains_str(&n, "fedora") {
        OsType::Fedora
    } else if contains_str(&n, "centos") {
        OsType::Centos
    } else if contains_str(&n, "almalinux") {
        OsType::AlmaLinux
    } else if contains_str(&n, "rocky") {
        OsType::Rocky
    } else if contains_str(&n, "oracle") {
        OsType::Oracle
    } else if contains_str(&n, "arch") {
        OsType::Arch
    } else if contains_str(&n, "alpine") {
        OsType::Alpine
    } else {
        OsType::Unknown
    }
}

/// The distribution that the `NAME` of `/etc/os-release` names, compared in
/// lower case.
pub fn get_os(os_name: &str) -> (r: OsType)
    ensures
        r == os_of_name(lowercase_text(os_name@)),
{
    let lower = to_lowercase(os_name);
    os_type_from_name(lower.as_str())
}

/// The distribution and version that the `NAME` and `VERSION_ID` of
/// `/etc/os-release` give.
pub fn get_os_with_version(os_name: &str, version_id: &str) -> (r: (OsType, VersionInfo))
    ensures
        r.0 == os_of_name(lowercase_text(os_name@)),
        r.1.major_version == spec_major(version_id@),
        r.1.minor_version == spec_minor(version_id@),
        r.1.full_version@ == version_id@,
{
    let version_info = VersionInfo::new(version_id);
    (get_os(os_name), version_info)
}

/// The name of a distribution as `{:?}` writes it.
pub open spec fn os_debug_name_spec(os: OsType) -> Seq<char> {
    match os {
        OsType::Debian => "Debian"@,
        OsType::Raspbian => "Raspbian"@,
        OsType::Ubuntu => "Ubuntu"@,
        OsType::Fedora => "Fedora"@,
        OsType::Centos => "Centos"@,
        OsType::AlmaLinux => "AlmaLinux"@,
        OsType::Rocky => "Rocky"@,
        OsType::Oracle => "Oracle"@,
        OsType::Arch => "Arch"@,
        OsType::Alpine => "Alpine"@,
        OsType::Unknown => "Unknown"@,
    }
}

/// The name of a distribution as `{:?}` writes it.
pub fn os_debug_name(os: OsType) -> (r: String)
    ensures
        r@ == os_debug_name_spec(os),
{
    match os {
        OsType::Debian => owned("Debian"),
        OsType::Raspbian => owned("Raspbian"),
        OsType::Ubuntu => owned("Ubuntu"),
        OsType::Fedora => owned("Fedora"),
        OsType::Centos => owned("Centos"),
        OsType::AlmaLinux => owned("AlmaLinux"),
        OsType::Rocky => owned("Rocky"),
        OsType::Oracle => owned("Oracle"),
        OsType::Arch => owned("Arch"),
        OsType::Alpine => owned("Alpine"),
        OsType::Unknown => owned("Unknown"),
    }
}

} // verus!
