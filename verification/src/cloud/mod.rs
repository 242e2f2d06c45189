//! Servers and snapshots, as every provider has them.

use vstd::prelude::*;
use crate::text;
use crate::time::UtcTime;

pub mod aliyun;
pub mod driver;

verus! {

/// A server.
#[derive(Debug)]
pub struct Server {
    pub id: String,
    pub name: String,
    pub region: String,
    /// The state as the provider calls it.
    pub status: String,
    /// When it expires; of one that is paid by use, nothing.
    pub expired_at: Option<UtcTime>,
}

/// What is known of a server.
pub struct ServerView {
    pub id: Seq<char>,
    pub name: Seq<char>,
    pub region: Seq<char>,
    pub status: Seq<char>,
    pub expired_at: Option<UtcTime>,
}

impl View for Server {
    type V = ServerView;

    open spec fn view(&self) -> ServerView {
        ServerView {
            id: self.id@,
            name: self.name@,
            region: self.region@,
            status: self.status@,
            expired_at: self.expired_at,
        }
    }
}

impl Server {
    /// Whether the expiry is an instant.
    pub open spec fn wf(&self) -> bool {
        self.expired_at matches Some(t) ==> t.wf()
    }
}

/// The state of a snapshot.
#[derive(Debug, Clone, Copy, PartialEq, Eq, Structural)]
pub enum SnapshotStatus {
    Creating,
    Available,
    Failed,
    Unknown,
}

/// A snapshot.
#[derive(Debug)]
pub struct Snapshot {
    pub id: String,
    pub name: String,
    pub status: SnapshotStatus,
    /// When it was created, as the provider writes it.
    pub created_at: Option<String>,
}

/// What is known of a snapshot.
pub struct SnapshotView {
    pub id: Seq<char>,
    pub name: Seq<char>,
    pub status: SnapshotStatus,
    pub created_at: Option<Seq<char>>,
}

impl View for Snapshot {
    type V = SnapshotView;

    open spec fn view(&self) -> SnapshotView {
        SnapshotView {
            id: self.id@,
            name: self.name@,
            status: self.status,
            created_at: text::opt_view(self.created_at),
        }
    }
}

/// Whether the first snapshot is as old as the second or older. One without a creation time is
/// older than every other.
pub open spec fn as_old_as(a: SnapshotView, b: SnapshotView) -> bool {
    match (a.created_at, b.created_at) {
        (None, _) => true,
        (Some(_), None) => false,
        (Some(x), Some(y)) => text::text_le(x, y),
    }
}

impl crate::sort::Ranked for Snapshot {
    open spec fn ranks() -> spec_fn(SnapshotView, SnapshotView) -> bool {
        |a: SnapshotView, b: SnapshotView| as_old_as(a, b)
    }

    fn at_most(&self, other: &Self) -> (r: bool) {
        match (&self.created_at, &other.created_at) {
            (None, _) => true,
            (Some(_), None) => false,
            (Some(x), Some(y)) => text::at_most(x.as_str(), y.as_str()),
        }
    }

    proof fn lemma_ranking() {
        let le = Self::ranks();
        assert forall|a: SnapshotView, b: SnapshotView| #[trigger] le(a, b) || le(b, a) by {
            if let (Some(x), Some(y)) = (a.created_at, b.created_at) {
                text::lemma_bytes_le_total(
                    vstd::utf8::encode_utf8(x),
                    vstd::utf8::encode_utf8(y),
                );
            }
        }
        assert forall|a: SnapshotView, b: SnapshotView, c: SnapshotView| #[trigger]
            le(a, b) && #[trigger] le(b, c) implies le(a, c) by {
            if let (Some(x), Some(y), Some(z)) = (a.created_at, b.created_at, c.created_at) {
                text::lemma_bytes_le_trans(
                    vstd::utf8::encode_utf8(x),
                    vstd::utf8::encode_utf8(y),
                    vstd::utf8::encode_utf8(z),
                );
            }
        }
    }
}

/// What is said of the region behind an identifier: nothing where there is none.
pub open spec fn region_suffix_text(region: Seq<char>) -> Seq<char> {
    if region.len() == 0 {
        ""@
    } else {
        ", "@ + region
    }
}

/// The region, to stand behind an identifier.
pub fn region_suffix(region: &str) -> (r: String)
    ensures
        r@ == region_suffix_text(region@),
{
    if region.is_empty() {
        "".to_owned()
    } else {
        let mut s = ", ".to_owned();
        s.append(region);
        s
    }
}

/// The name, or the identifier where the name is empty.
pub open spec fn name_or(name: Seq<char>, id: Seq<char>) -> Seq<char> {
    if name.len() == 0 {
        id
    } else {
        name
    }
}

} // verus!
