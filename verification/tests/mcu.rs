use avr_sim::mcu::McuState;

/// A microcontroller as the reset signals see it: the first cycle that is
/// run starts it, which resets it once.
struct Mcu {
    state: McuState,
    is_initialised: bool,
}

impl Mcu {
    fn new() -> Mcu {
        Mcu { state: McuState::default(), is_initialised: false }
    }

    fn run_cycle(&mut self) {
        if !self.is_initialised {
            self.state.on_reset();
            self.is_initialised = true;
        }
    }

    fn reset(&mut self) {
        self.state.on_reset();
    }

    fn state(&self) -> &McuState {
        &self.state
    }
}

#[test]
fn new_mcu_state_is_default() {
    let avr = Mcu::new();
    assert_eq!(avr.state(), &McuState::default());
}

#[test]
fn first_initialise_increments_reset_count() {
    let mut avr = Mcu::new();

    assert_eq!(avr.state().powered_on, false);
    assert_eq!(avr.state().reset_count, 0);
    avr.run_cycle();
    assert_eq!(avr.state().powered_on, true);
    assert_eq!(avr.state().reset_count, 0);
}

#[test]
fn explicit_resets_after_first_increment_reset_count() {
    let mut avr = Mcu::new();

    assert_eq!(avr.state().powered_on, false);
    assert_eq!(avr.state().reset_count, 0);

    for _ in 0..4 {
        avr.run_cycle();
        assert_eq!(avr.state().powered_on, true);
        assert_eq!(avr.state().reset_count, 0);
    }

    avr.reset();
    assert_eq!(avr.state().powered_on, true);
    assert_eq!(avr.state().reset_count, 1);
    avr.reset();
    assert_eq!(avr.state().powered_on, true);
    assert_eq!(avr.state().reset_count, 2);
}

#[test]
fn has_reset_makes_sense() {
    let mut avr = Mcu::new();
    assert_eq!(avr.state().has_reset(), false);

    for _ in 0..4 {
        avr.run_cycle();
        assert_eq!(avr.state().has_reset(), false);
    }

    avr.reset();
    assert_eq!(avr.state().has_reset(), true);
}
