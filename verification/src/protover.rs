//! Agreement on a protocol version when a connection is set up.

use vstd::prelude::*;

verus! {

/// A protocol version.
pub type Version = u16;

/// The versions that one side speaks: all from `min` to `max`.
#[derive(Clone, Copy, Debug, PartialEq, Eq, Structural)]
pub struct VersionSupportAnnouncement {
    pub min: Version,
    pub max: Version,
}

/// Why no version was agreed on.
#[derive(Clone, Copy, Debug, PartialEq, Eq, Structural)]
pub enum ProtoVerError {
    /// The two sides speak no version in common.
    NoCommonVersion { local_range: VersionSupportAnnouncement, peer_range: VersionSupportAnnouncement },
    /// The own announcement could not be sent.
    SendFailed,
    /// The peer's announcement did not arrive.
    ReceiveFailed,
}

/// What came of waiting for the peer's announcement.
#[derive(Clone, Copy, Debug, PartialEq, Eq, Structural)]
pub enum Announcement {
    /// The peer announced its versions.
    Received(VersionSupportAnnouncement),
    /// Reading failed.
    Failed,
    /// The peer hung up.
    Closed,
}

/// The versions that this side speaks.
pub open spec fn local_range() -> VersionSupportAnnouncement {
    VersionSupportAnnouncement { min: 0, max: 2 }
}

/// The highest version that both sides speak, if there is one.
pub open spec fn latest_common_of(
    a: VersionSupportAnnouncement,
    b: VersionSupportAnnouncement,
) -> Option<Version> {
    let lowest = if a.min >= b.min { a.min } else { b.min };
    let highest = if a.max <= b.max { a.max } else { b.max };
    if lowest <= highest {
        Some(highest)
    } else {
        None
    }
}

impl VersionSupportAnnouncement {
    /// Whether this side speaks `version`.
    pub open spec fn speaks(self, version: Version) -> bool {
        self.min <= version && version <= self.max
    }

    /// The highest version that both sides speak, if there is one.
    pub fn latest_common(&self, other: &VersionSupportAnnouncement) -> (version: Option<Version>)
        ensures
            version == latest_common_of(*self, *other),
    {
        let lowest = if self.min >= other.min { self.min } else { other.min };
        let highest = if self.max <= other.max { self.max } else { other.max };
        if lowest <= highest {
            Some(highest)
        } else {
            None
        }
    }
}

/// The version agreed on is spoken by both sides and no higher one is; there
/// is none exactly if the sides have no version in common.
pub proof fn lemma_latest_common(a: VersionSupportAnnouncement, b: VersionSupportAnnouncement)
    ensures
        match latest_common_of(a, b) {
            Some(version) => a.speaks(version) && b.speaks(version) && forall|higher: Version|
                a.speaks(higher) && b.speaks(higher) ==> higher <= version,
            None => forall|any: Version| !(a.speaks(any) && b.speaks(any)),
        },
        latest_common_of(a, b) == latest_common_of(b, a),
{
}

/// The announcement that is sent to the peer first.
pub fn local_announcement() -> (range: VersionSupportAnnouncement)
    ensures
        range == local_range(),
{
    VersionSupportAnnouncement { min: 0, max: 2 }
}

/// Settles the version of a connection once the peer has answered the local
/// announcement, or has failed to.
pub fn determine_version(answer: Announcement) -> (version: Result<Version, ProtoVerError>)
    ensures
        version == match answer {
            Announcement::Received(peer_range) => match latest_common_of(local_range(), peer_range) {
                Some(common) => Ok::<Version, ProtoVerError>(common),
                None => Err::<Version, ProtoVerError>(
                    ProtoVerError::NoCommonVersion { local_range: local_range(), peer_range },
                ),
            },
            _ => Err::<Version, ProtoVerError>(ProtoVerError::ReceiveFailed),
        },
{
    let local = local_announcement();
    match answer {
        Announcement::Received(peer_range) => match local.latest_common(&peer_range) {
            Some(common) => Ok(common),
            None => Err(ProtoVerError::NoCommonVersion { local_range: local, peer_range }),
        },
        _ => Err(ProtoVerError::ReceiveFailed),
    }
}

} // verus!
