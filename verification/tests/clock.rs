use crowdloan_rewards::clock::{roll_to, BlockProvider, MockedBlockProvider};

#[test]
fn a_new_clock_shows_its_block() {
    assert_eq!(MockedBlockProvider::new(1).current_block_number(), 1);
    assert_eq!(MockedBlockProvider::new(u64::MAX).current_block_number(), u64::MAX);
}

#[test]
fn set_block_number_moves_the_clock_either_way() {
    let mut clock = MockedBlockProvider::new(7);
    clock.set_block_number(3);
    assert_eq!(clock.current_block_number(), 3);
    clock.set_block_number(30);
    assert_eq!(clock.current_block_number(), 30);
}

#[test]
fn roll_to_moves_forward_only() {
    let mut clock = MockedBlockProvider::new(1);
    roll_to(&mut clock, 4);
    assert_eq!(clock.current_block_number(), 4);
    roll_to(&mut clock, 4);
    assert_eq!(clock.current_block_number(), 4);
    roll_to(&mut clock, 2);
    assert_eq!(clock.current_block_number(), 4);
    roll_to(&mut clock, 329);
    assert_eq!(clock.current_block_number(), 329);
    roll_to(&mut clock, 0);
    assert_eq!(clock.current_block_number(), 329);
}
