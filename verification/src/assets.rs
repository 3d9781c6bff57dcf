//! The art of the runes: where each piece is kept and where it comes
//! from, and what came of looking for it.

use vstd::prelude::*;
use vstd::string::StringExecFns;

verus! {

/// Where the art comes from.
pub const CDN: &'static str = "https://d2aao99y1mip6n.cloudfront.net";

/// Where the art is kept.
pub const ASSETS: &'static str = "../frontend/public/assets";

/// What came of looking for a piece of art, or for several.
#[derive(Debug, Clone, Copy, PartialEq, Eq, Structural)]
pub enum ArtStatus {
    /// It was there.
    NoChange,
    /// It was missing and has been fetched.
    Success,
    /// It was missing and could not be fetched.
    Fail,
}

impl ArtStatus {
    /// How bad the status is.
    pub open spec fn weight(self) -> int {
        match self {
            ArtStatus::NoChange => 0,
            ArtStatus::Success => 1,
            ArtStatus::Fail => 2,
        }
    }

    /// The status of two pieces together: the worse of the two.
    pub open spec fn both(self, other: ArtStatus) -> ArtStatus {
        if self.weight() >= other.weight() {
            self
        } else {
            other
        }
    }

    /// What came of looking for a piece: it was there, or else it was
    /// fetched, or could not be.
    pub fn of(there: bool, fetched: bool) -> (status: ArtStatus)
        ensures
            status == (if there {
                ArtStatus::NoChange
            } else if fetched {
                ArtStatus::Success
            } else {
                ArtStatus::Fail
            }),
    {
        if there {
            ArtStatus::NoChange
        } else if fetched {
            ArtStatus::Success
        } else {
            ArtStatus::Fail
        }
    }
}

impl std::ops::BitOr for ArtStatus {
    type Output = ArtStatus;

    fn bitor(self, rhs: ArtStatus) -> (status: ArtStatus) {
        match (self, rhs) {
            (ArtStatus::Fail, _) => ArtStatus::Fail,
            (_, ArtStatus::Fail) => ArtStatus::Fail,
            (ArtStatus::Success, _) => ArtStatus::Success,
            (_, ArtStatus::Success) => ArtStatus::Success,
            _ => ArtStatus::NoChange,
        }
    }
}

impl vstd::std_specs::ops::BitOrSpecImpl for ArtStatus {
    open spec fn obeys_bitor_spec() -> bool {
        true
    }

    open spec fn bitor_req(self, rhs: ArtStatus) -> bool {
        true
    }

    open spec fn bitor_spec(self, rhs: ArtStatus) -> ArtStatus {
        self.both(rhs)
    }
}

/// The status of several pieces does not depend on their order, and a
/// piece that was there changes nothing.
pub proof fn lemma_both(a: ArtStatus, b: ArtStatus, c: ArtStatus)
    ensures
        a.both(b) == b.both(a),
        a.both(b).both(c) == a.both(b.both(c)),
        a.both(ArtStatus::NoChange) == a,
        a.both(a) == a,
{
}

/// A piece of art of a rune.
#[derive(Debug, Clone, Copy, PartialEq, Eq, Structural)]
pub enum Art {
    /// The large picture.
    Rune,
    /// The small picture.
    Mini,
    /// The figure on the board.
    Idol,
}

impl Art {
    /// The directory of the pieces of this kind, and the ending of their
    /// files.
    pub open spec fn kept(self) -> (Seq<char>, Seq<char>) {
        match self {
            Art::Rune => ("/runes/"@, ".jpg"@),
            Art::Mini => ("/minis/"@, ".png"@),
            Art::Idol => ("/idols/"@, ".gif"@),
        }
    }

    /// The directory from which the pieces of this kind come.
    pub open spec fn served(self) -> Seq<char> {
        match self {
            Art::Rune => "/images/runes/lg/"@,
            Art::Mini => "/images/runes/sm/"@,
            Art::Idol => "/images/runes/idols/"@,
        }
    }

    /// Where the piece of the rune with the hash `hash` is kept.
    pub open spec fn spec_path(self, hash: Seq<char>) -> Seq<char> {
        ASSETS@ + self.kept().0 + hash + self.kept().1
    }

    /// Where the piece of the rune with the hash `hash` comes from.
    pub open spec fn spec_url(self, hash: Seq<char>) -> Seq<char> {
        CDN@ + self.served() + hash + self.kept().1
    }

    /// Where the piece of the rune with the hash `hash` is kept.
    pub fn path(self, hash: &str) -> (path: String)
        ensures
            path@ == self.spec_path(hash@),
    {
        let mut path: String = String::from_str(ASSETS);
        match self {
            Art::Rune => {
                path.append("/runes/");
                path.append(hash);
                path.append(".jpg");
            },
            Art::Mini => {
                path.append("/minis/");
                path.append(hash);
                path.append(".png");
            },
            Art::Idol => {
                path.append("/idols/");
                path.append(hash);
                path.append(".gif");
            },
        }
        assert(path@ =~= self.spec_path(hash@));
        path
    }

    /// Where the piece of the rune with the hash `hash` comes from.
    pub fn url(self, hash: &str) -> (url: String)
        ensures
            url@ == self.spec_url(hash@),
    {
        let mut url: String = String::from_str(CDN);
        match self {
            Art::Rune => {
                url.append("/images/runes/lg/");
                url.append(hash);
                url.append(".jpg");
            },
            Art::Mini => {
                url.append("/images/runes/sm/");
                url.append(hash);
                url.append(".png");
            },
            Art::Idol => {
                url.append("/images/runes/idols/");
                url.append(hash);
                url.append(".gif");
            },
        }
        assert(url@ =~= self.spec_url(hash@));
        url
    }
}

/// Where the icon of an ability with the icon name `icon` is kept.
pub fn icon_path(icon: &str) -> (path: String)
    ensures
        path@ == ASSETS@ + "/big_icons/icon_"@ + icon@ + ".png"@,
{
    let mut path: String = String::from_str(ASSETS);
    path.append("/big_icons/icon_");
    path.append(icon);
    path.append(".png");
    assert(path@ =~= ASSETS@ + "/big_icons/icon_"@ + icon@ + ".png"@);
    path
}

} // verus!
