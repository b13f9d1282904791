use chip8::cpu::Cpu;
use chip8::disassembler::OpCode;
use chip8::machine::{
    Fault, CLOCK_FREQUENCY_HZ, CLOCK_PERIOD_MS, TIMER_FREQUENCY_HZ, TIMER_PERIOD_MS,
};

fn with_timers(delay: u8, sound: u8) -> Cpu {
    let mut cpu = Cpu::new();
    assert_eq!(cpu.execute_opcode(OpCode::SetVal(0, delay), 0), Ok(()));
    assert_eq!(cpu.execute_opcode(OpCode::SetDelayTimer(0), 0), Ok(()));
    assert_eq!(cpu.execute_opcode(OpCode::SetVal(0, sound), 0), Ok(()));
    assert_eq!(cpu.execute_opcode(OpCode::SetSoundTimer(0), 0), Ok(()));
    assert_eq!(cpu.execute_opcode(OpCode::SetVal(0, 0), 0), Ok(()));
    cpu
}

#[test]
fn clock_periods_are_whole_milliseconds() {
    assert_eq!(CLOCK_FREQUENCY_HZ, 500);
    assert_eq!(TIMER_FREQUENCY_HZ, 60);
    assert_eq!(CLOCK_PERIOD_MS, 2);
    assert_eq!(TIMER_PERIOD_MS, 16);
}

#[test]
fn first_tick_executes_and_counts_down() {
    let mut cpu = with_timers(10, 0);
    assert_eq!(cpu.load_program(&[0x61, 0x07]), Ok(()));
    assert_eq!(cpu.tick(1_000_000), Ok(false));
    assert_eq!(cpu.register(1), 7);
    assert_eq!(cpu.program_counter(), 514);
    assert_eq!(cpu.delay_timer(), 9);
}

#[test]
fn instructions_are_two_milliseconds_apart() {
    let mut cpu = Cpu::new();
    assert_eq!(cpu.load_program(&[0x71, 0x01, 0x71, 0x01, 0x71, 0x01, 0x71, 0x01]), Ok(()));
    assert_eq!(cpu.tick(100), Ok(false));
    assert_eq!(cpu.register(1), 1);
    assert_eq!(cpu.tick(100), Ok(false));
    assert_eq!(cpu.tick(101), Ok(false));
    assert_eq!(cpu.register(1), 1);
    assert_eq!(cpu.tick(102), Ok(false));
    assert_eq!(cpu.register(1), 2);
    assert_eq!(cpu.tick(103), Ok(false));
    assert_eq!(cpu.register(1), 2);
}

#[test]
fn a_late_tick_executes_one_instruction_only() {
    let mut cpu = Cpu::new();
    assert_eq!(cpu.load_program(&[0x71, 0x01, 0x71, 0x01, 0x71, 0x01, 0x71, 0x01]), Ok(()));
    assert_eq!(cpu.tick(0), Ok(false));
    assert_eq!(cpu.tick(1000), Ok(false));
    assert_eq!(cpu.register(1), 2);
    assert_eq!(cpu.tick(1001), Ok(false));
    assert_eq!(cpu.register(1), 2);
    assert_eq!(cpu.tick(1002), Ok(false));
    assert_eq!(cpu.register(1), 3);
}

#[test]
fn timers_are_sixteen_milliseconds_apart() {
    let mut cpu = with_timers(100, 50);
    assert_eq!(cpu.tick(500), Ok(true));
    assert_eq!((cpu.delay_timer(), cpu.sound_timer()), (99, 49));
    assert_eq!(cpu.tick(515), Ok(true));
    assert_eq!((cpu.delay_timer(), cpu.sound_timer()), (99, 49));
    assert_eq!(cpu.tick(516), Ok(true));
    assert_eq!((cpu.delay_timer(), cpu.sound_timer()), (98, 48));
    assert_eq!(cpu.tick(530), Ok(true));
    assert_eq!((cpu.delay_timer(), cpu.sound_timer()), (98, 48));
    assert_eq!(cpu.tick(540), Ok(true));
    assert_eq!((cpu.delay_timer(), cpu.sound_timer()), (97, 47));
    assert_eq!(cpu.tick(555), Ok(true));
    assert_eq!((cpu.delay_timer(), cpu.sound_timer()), (97, 47));
    assert_eq!(cpu.tick(556), Ok(true));
    assert_eq!((cpu.delay_timer(), cpu.sound_timer()), (96, 46));
}

#[test]
fn timers_stop_at_zero() {
    let mut cpu = with_timers(1, 2);
    assert_eq!(cpu.tick(0), Ok(true));
    assert_eq!((cpu.delay_timer(), cpu.sound_timer()), (0, 1));
    assert_eq!(cpu.tick(16), Ok(true));
    assert_eq!((cpu.delay_timer(), cpu.sound_timer()), (0, 0));
    assert_eq!(cpu.tick(32), Ok(false));
    assert_eq!((cpu.delay_timer(), cpu.sound_timer()), (0, 0));
}

#[test]
fn tone_sounds_while_the_sound_timer_runs() {
    let mut cpu = Cpu::new();
    assert_eq!(cpu.load_program(&[0x61, 0x02, 0xF1, 0x18]), Ok(()));
    assert_eq!(cpu.tick(0), Ok(false));
    assert_eq!(cpu.tick(2), Ok(true));
    assert_eq!(cpu.sound_timer(), 2);
    assert_eq!(cpu.tick(16), Ok(true));
    assert_eq!(cpu.sound_timer(), 1);
    assert_eq!(cpu.tick(32), Ok(true));
    assert_eq!(cpu.sound_timer(), 0);
    assert_eq!(cpu.tick(34), Ok(false));
}

#[test]
fn a_second_of_ticks_counts_the_timers_down_once_every_sixteen_milliseconds() {
    let mut cpu = with_timers(200, 10);
    for now in 0..1000u128 {
        assert_eq!(cpu.tick(now), Ok(now <= 144));
    }
    assert_eq!(cpu.delay_timer(), 200 - 63);
    assert_eq!(cpu.sound_timer(), 0);
    assert_eq!(cpu.program_counter(), 512 + 2 * 500);
}

#[test]
fn timers_do_not_depend_on_the_instructions() {
    let mut idle = with_timers(200, 0);
    let mut looping = with_timers(200, 0);
    assert_eq!(looping.load_program(&[0x71, 0x01, 0x12, 0x00]), Ok(()));
    let mut waiting = with_timers(200, 0);
    assert_eq!(waiting.load_program(&[0xF1, 0x0A]), Ok(()));
    let mut now: u128 = 5;
    let mut ticks: u32 = 0;
    while now < 1005 {
        assert_eq!(idle.tick(now), Ok(false));
        assert_eq!(looping.tick(now), Ok(false));
        assert_eq!(waiting.tick(now), Ok(false));
        assert_eq!(idle.delay_timer(), looping.delay_timer());
        assert_eq!(idle.delay_timer(), waiting.delay_timer());
        now += 1 + (ticks % 2) as u128;
        ticks += 1;
    }
    assert_eq!(waiting.program_counter(), 512);
    assert_eq!(looping.register(1), 167);
    assert_eq!(idle.delay_timer(), 200 - 61);
}

#[test]
fn a_slow_host_slows_the_timers() {
    let mut cpu = with_timers(200, 0);
    let mut now: u128 = 0;
    while now < 1000 {
        assert_eq!(cpu.tick(now), Ok(false));
        now += 100;
    }
    assert_eq!(cpu.delay_timer(), 190);
    assert_eq!(cpu.program_counter(), 512 + 2 * 10);
}

#[test]
fn tick_reports_a_fault_and_changes_nothing() {
    let mut cpu = with_timers(5, 5);
    assert_eq!(cpu.load_program(&[0x00, 0xEE]), Ok(()));
    assert_eq!(cpu.tick(10), Err(Fault::StackUnderflow));
    assert_eq!(cpu.program_counter(), 512);
    assert_eq!((cpu.delay_timer(), cpu.sound_timer()), (5, 5));
    assert_eq!(cpu.tick(11), Err(Fault::StackUnderflow));
    assert_eq!((cpu.delay_timer(), cpu.sound_timer()), (5, 5));
}

#[test]
fn waiting_for_a_key_lets_the_timers_run() {
    let mut cpu = with_timers(3, 0);
    assert_eq!(cpu.load_program(&[0xF2, 0x0A]), Ok(()));
    for now in 0..40u128 {
        assert_eq!(cpu.tick(now), Ok(false));
        assert_eq!(cpu.program_counter(), 512);
    }
    assert_eq!(cpu.delay_timer(), 0);
    cpu.get_keyboard().set_key_pressed(7, true);
    assert_eq!(cpu.tick(40), Ok(false));
    assert_eq!(cpu.program_counter(), 512);
    cpu.get_keyboard().set_key_pressed(7, false);
    assert_eq!(cpu.tick(41), Ok(false));
    assert_eq!(cpu.program_counter(), 512);
    assert_eq!(cpu.tick(42), Ok(false));
    assert_eq!(cpu.program_counter(), 514);
    assert_eq!(cpu.register(2), 7);
}
