use poxbase::assets::ArtStatus::{Fail, NoChange, Success};
use poxbase::assets::{icon_path, Art, ArtStatus};

#[test]
fn the_status_of_several_pieces_is_the_worst() {
    let table = [
        (NoChange, NoChange, NoChange),
        (NoChange, Success, Success),
        (Success, NoChange, Success),
        (Success, Success, Success),
        (NoChange, Fail, Fail),
        (Fail, NoChange, Fail),
        (Success, Fail, Fail),
        (Fail, Success, Fail),
        (Fail, Fail, Fail),
    ];
    for (a, b, both) in table {
        assert_eq!(a | b, both);
    }
    assert_eq!(NoChange | Success | NoChange, Success);
    assert_eq!(Success | NoChange | Fail, Fail);
}

#[test]
fn a_piece_that_is_there_is_not_fetched() {
    assert_eq!(ArtStatus::of(true, false), ArtStatus::NoChange);
    assert_eq!(ArtStatus::of(true, true), ArtStatus::NoChange);
    assert_eq!(ArtStatus::of(false, true), ArtStatus::Success);
    assert_eq!(ArtStatus::of(false, false), ArtStatus::Fail);
}

#[test]
fn every_piece_has_its_place_and_its_source() {
    let hash = "0123abcd";
    assert_eq!(Art::Rune.path(hash), "../frontend/public/assets/runes/0123abcd.jpg");
    assert_eq!(Art::Mini.path(hash), "../frontend/public/assets/minis/0123abcd.png");
    assert_eq!(Art::Idol.path(hash), "../frontend/public/assets/idols/0123abcd.gif");
    assert_eq!(Art::Rune.url(hash), "https://d2aao99y1mip6n.cloudfront.net/images/runes/lg/0123abcd.jpg");
    assert_eq!(Art::Mini.url(hash), "https://d2aao99y1mip6n.cloudfront.net/images/runes/sm/0123abcd.png");
    assert_eq!(Art::Idol.url(hash), "https://d2aao99y1mip6n.cloudfront.net/images/runes/idols/0123abcd.gif");
    assert_eq!(icon_path("dot_burn"), "../frontend/public/assets/big_icons/icon_dot_burn.png");
}
