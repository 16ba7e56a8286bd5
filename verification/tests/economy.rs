use otd_core::defs::BuildKind;
use otd_core::placement::PlaceError;
use otd_core::sim::{convert_step, overcharge_step, pay, repair_step, upgrade_step, Economy};

fn purse(credits: i32, integrity: i32) -> Economy {
    Economy { credits, spent: 10, integrity, integrity_max: 20 }
}

#[test]
fn repair_step_patches_one_point() {
    let e = repair_step(false, purse(100, 12)).unwrap();
    assert_eq!(e, Economy { credits: 65, spent: 45, integrity: 13, integrity_max: 20 });
    assert_eq!(repair_step(false, purse(34, 12)), Err(PlaceError::CantAfford));
    assert_eq!(repair_step(false, purse(100, 20)), Err(PlaceError::Intact));
    assert_eq!(repair_step(true, purse(100, 12)), Err(PlaceError::RelayDown));
    assert_eq!(repair_step(false, purse(100, 0)), Err(PlaceError::RelayDown));
}

#[test]
fn upgrade_step_charges_the_price() {
    let (e, c) = upgrade_step(Some(BuildKind::Autocannon), Some(30), purse(50, 20)).unwrap();
    assert_eq!(c, 30);
    assert_eq!((e.credits, e.spent, e.integrity), (20, 40, 20));
    assert_eq!(
        upgrade_step(Some(BuildKind::Autocannon), Some(51), purse(50, 20)),
        Err(PlaceError::CantAfford)
    );
    assert_eq!(upgrade_step(Some(BuildKind::Autocannon), None, purse(50, 20)), Err(PlaceError::MaxTier));
    assert_eq!(upgrade_step(Some(BuildKind::Barricade), Some(1), purse(50, 20)), Err(PlaceError::NotATurret));
    assert_eq!(upgrade_step(None, Some(1), purse(50, 20)), Err(PlaceError::NotATurret));
}

#[test]
fn convert_and_overcharge_steps() {
    let e = convert_step(Some((BuildKind::Helios, false)), purse(5, 20)).unwrap();
    assert_eq!((e.credits, e.spent), (4, 11));
    assert_eq!(convert_step(Some((BuildKind::Helios, true)), purse(5, 20)), Err(PlaceError::AlreadyAir));
    assert_eq!(convert_step(Some((BuildKind::Howitzer, false)), purse(5, 20)), Err(PlaceError::NotHelios));
    let e = overcharge_step(Some(BuildKind::Inferno), purse(40, 20)).unwrap();
    assert_eq!((e.credits, e.spent), (0, 50));
    assert_eq!(overcharge_step(Some(BuildKind::Inferno), purse(39, 20)), Err(PlaceError::CantAfford));
}

#[test]
fn pay_moves_scrap_to_spent() {
    let before = purse(100, 7);
    let after = pay(before, 8);
    assert_eq!(after.credits + after.spent, before.credits + before.spent);
    assert_eq!((after.credits, after.spent, after.integrity), (92, 18, 7));
}
