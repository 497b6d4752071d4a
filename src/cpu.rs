use crate::display::{draw_collides, draw_fb, Display};
use crate::keyboard::{default_keymap, first_held, Keyboard, KEY_COUNT};
use vstd::arithmetic::div_mod::lemma_mod_add_multiples_vanish;
use vstd::prelude::*;

verus! {

/// Size of the address space in bytes.
pub const MEMORY_SIZE: usize = 4096;

/// Address at which programs are loaded and execution starts.
pub const PROGRAM_START: u16 = 0x200;

/// Largest program image that fits between `PROGRAM_START` and the last address.
pub const MAX_ROM_LEN: usize = 3583;

/// Number of return addresses the call stack holds.
pub const STACK_DEPTH: usize = 16;

/// Unrecoverable conditions that stop the interpreter.
#[derive(Debug, Clone, Copy, PartialEq, Eq, Structural)]
pub enum Fault {
    /// The program image does not fit in memory.
    RomTooLarge { len: usize },
    /// The program counter no longer addresses a whole instruction.
    PcOutOfRange { pc: u16 },
    /// The fetched word is not an instruction.
    InvalidOpcode { opcode: u16 },
    /// A call with all stack slots in use.
    StackOverflow { opcode: u16 },
    /// A return with an empty stack.
    StackUnderflow { opcode: u16 },
    /// The instruction would read or write memory past the last address, starting at `index`.
    MemoryOutOfRange { opcode: u16, index: u16 },
}

/// The interpreter: registers, memory, call stack, timers, screen and keypad.
pub struct CPU {
    pub pc: u16,
    pub stack: [u16; 16],
    pub sp: u8,
    pub i: u16,
    pub dt: u8,
    pub st: u8,
    pub v: [u8; 16],
    pub memory: [u8; 4096],
    pub keyboard: Keyboard,
    pub display: Display,
}

/// Mathematical model of the whole machine.
pub struct MachineState {
    pub pc: u16,
    pub stack: Seq<u16>,
    pub sp: u8,
    pub i: u16,
    pub dt: u8,
    pub st: u8,
    pub v: Seq<u8>,
    pub memory: Seq<u8>,
    pub fb: Seq<bool>,
    pub need_redraw: bool,
    pub keys: Seq<bool>,
    pub keymap: Seq<char>,
}

impl View for CPU {
    type V = MachineState;

    open spec fn view(&self) -> MachineState {
        MachineState {
            pc: self.pc,
            stack: self.stack@,
            sp: self.sp,
            i: self.i,
            dt: self.dt,
            st: self.st,
            v: self.v@,
            memory: self.memory@,
            fb: self.display.fb@,
            need_redraw: self.display.need_redraw,
            keys: self.keyboard.keys@,
            keymap: self.keyboard.keymap@,
        }
    }
}

/// Built-in hexadecimal glyphs, 5 bytes each, for digits 0x0 to 0xF.
pub open spec fn font() -> Seq<u8> {
    seq![
        0xF0, 0x90, 0x90, 0x90, 0xF0, 0x20, 0x60, 0x20, 0x20, 0x70,
        0xF0, 0x10, 0xF0, 0x80, 0xF0, 0xF0, 0x10, 0xF0, 0x10, 0xF0,
        0x90, 0x90, 0xF0, 0x10, 0x10, 0xF0, 0x80, 0xF0, 0x10, 0xF0,
        0xF0, 0x80, 0xF0, 0x90, 0xF0, 0xF0, 0x10, 0x20, 0x40, 0x40,
        0xF0, 0x90, 0xF0, 0x90, 0xF0, 0xF0, 0x90, 0xF0, 0x10, 0xF0,
        0xF0, 0x90, 0xF0, 0x90, 0x90, 0xE0, 0x90, 0xE0, 0x90, 0xE0,
        0xF0, 0x80, 0x80, 0x80, 0xF0, 0xE0, 0x90, 0x90, 0x90, 0xE0,
        0xF0, 0x80, 0xF0, 0x80, 0xF0, 0xF0, 0x80, 0xF0, 0x80, 0x80,
    ]
}

/// The big-endian instruction word at address `pc`.
pub open spec fn opcode_at(mem: Seq<u8>, pc: int) -> u16 {
    (mem[pc] * 256 + mem[pc + 1]) as u16
}

pub open spec fn set_reg(s: MachineState, x: int, val: u8) -> MachineState {
    MachineState { v: s.v.update(x, val), ..s }
}

/// Writes `val` to `Vx`, then `flag` to `VF` (so the flag wins when `x` is 0xF).
pub open spec fn set_reg_flag(s: MachineState, x: int, val: u8, flag: u8) -> MachineState {
    MachineState { v: s.v.update(x, val).update(15, flag), ..s }
}

/// Skips the next instruction when `cond` holds.
pub open spec fn skip_if(s: MachineState, cond: bool) -> MachineState {
    if cond {
        MachineState { pc: (s.pc + 2) as u16, ..s }
    } else {
        s
    }
}

pub open spec fn key_held(s: MachineState, key: u8) -> bool {
    key < KEY_COUNT && s.keys[key as int]
}

pub open spec fn flag(b: bool) -> u8 {
    if b {
        1
    } else {
        0
    }
}

/// Effect of executing `opcode` once the program counter has moved past it.
/// `entropy` is the random byte that `RND` masks.
pub open spec fn execute(s: MachineState, opcode: u16, entropy: u8) -> Result<MachineState, Fault> {
    let a = opcode / 4096;
    let xn = (opcode / 256) % 16;
    let yn = (opcode / 16) % 16;
    let n = opcode % 16;
    let x = xn as int;
    let nnn = (opcode % 4096) as u16;
    let kk = (opcode % 256) as u8;
    let vx = s.v[x];
    let vy = s.v[yn as int];
    match (a, xn, yn, n) {
        (0x0, 0x0, 0xE, 0x0) => Ok(
            MachineState { fb: Seq::new(s.fb.len(), |p: int| false), need_redraw: true, ..s },
        ),
        (0x0, 0x0, 0xE, 0xE) => if s.sp == 0 {
            Err(Fault::StackUnderflow { opcode })
        } else {
            Ok(MachineState { sp: (s.sp - 1) as u8, pc: s.stack[s.sp - 1], ..s })
        },
        (0x1, _, _, _) => Ok(MachineState { pc: nnn, ..s }),
        (0x2, _, _, _) => if s.sp >= STACK_DEPTH {
            Err(Fault::StackOverflow { opcode })
        } else {
            Ok(
                MachineState {
                    stack: s.stack.update(s.sp as int, s.pc),
                    sp: (s.sp + 1) as u8,
                    pc: nnn,
                    ..s
                },
            )
        },
        (0x3, _, _, _) => Ok(skip_if(s, vx == kk)),
        (0x4, _, _, _) => Ok(skip_if(s, vx != kk)),
        (0x5, _, _, _) => Ok(skip_if(s, vx == vy)),
        (0x6, _, _, _) => Ok(set_reg(s, x, kk)),
        (0x7, _, _, _) => Ok(set_reg(s, x, ((vx + kk) % 256) as u8)),
        (0x8, _, _, 0x0) => Ok(set_reg(s, x, vy)),
        (0x8, _, _, 0x1) => Ok(set_reg(s, x, vx | vy)),
        (0x8, _, _, 0x2) => Ok(set_reg(s, x, vx & vy)),
        (0x8, _, _, 0x3) => Ok(set_reg(s, x, vx ^ vy)),
        (0x8, _, _, 0x4) => Ok(set_reg_flag(s, x, ((vx + vy) % 256) as u8, flag(vx + vy >= 256))),
        (0x8, _, _, 0x5) => Ok(set_reg_flag(s, x, ((vx - vy) % 256) as u8, flag(vx >= vy))),
        (0x8, _, _, 0x6) => Ok(set_reg_flag(s, x, (vx / 2) as u8, (vx % 2) as u8)),
        (0x8, _, _, 0x7) => Ok(set_reg_flag(s, x, ((vy - vx) % 256) as u8, flag(vy >= vx))),
        (0x8, _, _, 0xE) => Ok(set_reg_flag(s, x, ((vx * 2) % 256) as u8, flag(vx >= 128))),
        (0x9, _, _, 0x0) => Ok(skip_if(s, vx != vy)),
        (0xA, _, _, _) => Ok(MachineState { i: nnn, ..s }),
        (0xB, _, _, _) => Ok(MachineState { pc: (nnn + s.v[0]) as u16, ..s }),
        (0xC, _, _, _) => Ok(set_reg(s, x, entropy & kk)),
        (0xD, _, _, _) => if s.i + n > MEMORY_SIZE {
            Err(Fault::MemoryOutOfRange { opcode, index: s.i })
        } else {
            let sprite = s.memory.subrange(s.i as int, s.i + n);
            Ok(
                MachineState {
                    fb: draw_fb(s.fb, vx as int, vy as int, sprite),
                    need_redraw: true,
                    v: s.v.update(15, flag(draw_collides(s.fb, vx as int, vy as int, sprite))),
                    ..s
                },
            )
        },
        (0xE, _, 0x9, 0xE) => Ok(skip_if(s, key_held(s, vx))),
        (0xE, _, 0xA, 0x1) => Ok(skip_if(s, !key_held(s, vx))),
        (0xF, _, 0x0, 0x7) => Ok(set_reg(s, x, s.dt)),
        (0xF, _, 0x0, 0xA) => if first_held(s.keys, 0) < KEY_COUNT {
            Ok(set_reg(s, x, first_held(s.keys, 0) as u8))
        } else {
            Ok(MachineState { pc: (s.pc - 2) as u16, ..s })
        },
        (0xF, _, 0x1, 0x5) => Ok(MachineState { dt: vx, ..s }),
        (0xF, _, 0x1, 0x8) => Ok(MachineState { st: vx, ..s }),
        (0xF, _, 0x1, 0xE) => Ok(MachineState { i: ((s.i + vx) % 65536) as u16, ..s }),
        (0xF, _, 0x2, 0x9) => Ok(MachineState { i: (vx * 5) as u16, ..s }),
        (0xF, _, 0x3, 0x3) => if s.i + 3 > MEMORY_SIZE {
            Err(Fault::MemoryOutOfRange { opcode, index: s.i })
        } else {
            Ok(
                MachineState {
                    memory: s.memory.update(s.i as int, (vx / 100) as u8).update(
                        s.i + 1,
                        ((vx / 10) % 10) as u8,
                    ).update(s.i + 2, (vx % 10) as u8),
                    ..s
                },
            )
        },
        (0xF, _, 0x5, 0x5) => if s.i + x + 1 > MEMORY_SIZE {
            Err(Fault::MemoryOutOfRange { opcode, index: s.i })
        } else {
            Ok(
                MachineState {
                    memory: Seq::new(
                        s.memory.len(),
                        |a: int|
                            if s.i <= a <= s.i + x {
                                s.v[a - s.i]
                            } else {
                                s.memory[a]
                            },
                    ),
                    ..s
                },
            )
        },
        (0xF, _, 0x6, 0x5) => if s.i + x + 1 > MEMORY_SIZE {
            Err(Fault::MemoryOutOfRange { opcode, index: s.i })
        } else {
            Ok(
                MachineState {
                    v: Seq::new(
                        s.v.len(),
                        |r: int|
                            if r <= x {
                                s.memory[s.i + r]
                            } else {
                                s.v[r]
                            },
                    ),
                    ..s
                },
            )
        },
        _ => Err(Fault::InvalidOpcode { opcode }),
    }
}

/// One fetch-decode-execute cycle.
pub open spec fn step(s: MachineState, entropy: u8) -> Result<MachineState, Fault> {
    if s.pc + 1 >= MEMORY_SIZE {
        Err(Fault::PcOutOfRange { pc: s.pc })
    } else {
        execute(
            MachineState { pc: (s.pc + 2) as u16, ..s },
            opcode_at(s.memory, s.pc as int),
            entropy,
        )
    }
}

/// `r` and the state `post` reached are what `expected` describes.
pub open spec fn realizes(r: Result<(), Fault>, post: MachineState, expected: Result<MachineState, Fault>) -> bool {
    match expected {
        Ok(t) => r is Ok && post == t,
        Err(e) => r == Err::<(), Fault>(e),
    }
}

/// State after power-on or reset: font loaded, everything else zero, keys released.
pub open spec fn initial_state(keymap: Seq<char>, need_redraw: bool) -> MachineState {
    MachineState {
        pc: PROGRAM_START,
        stack: Seq::new(STACK_DEPTH as nat, |k: int| 0u16),
        sp: 0,
        i: 0,
        dt: 0,
        st: 0,
        v: Seq::new(16, |k: int| 0u8),
        memory: font() + Seq::new((MEMORY_SIZE - 80) as nat, |a: int| 0u8),
        fb: Seq::new(2048, |p: int| false),
        need_redraw,
        keys: Seq::new(KEY_COUNT as nat, |k: int| false),
        keymap,
    }
}

/// Memory after copying `rom` to `PROGRAM_START`.
pub open spec fn with_program(mem: Seq<u8>, rom: Seq<u8>) -> Seq<u8> {
    mem.take(PROGRAM_START as int) + rom + mem.skip(PROGRAM_START + rom.len())
}

/// One 60 Hz timer tick: both timers count down to zero.
pub open spec fn tick(s: MachineState) -> MachineState {
    MachineState {
        dt: if s.dt > 0 {
            (s.dt - 1) as u8
        } else {
            0
        },
        st: if s.st > 0 {
            (s.st - 1) as u8
        } else {
            0
        },
        ..s
    }
}

impl CPU {
    pub open spec fn wf(&self) -> bool {
        self.sp <= STACK_DEPTH
    }

    /// A machine in its reset state, with the font loaded and the default key binding.
    pub fn new() -> (r: Self)
        ensures
            r@ == initial_state(default_keymap(), false),
            r.wf(),
    {
        let mut cpu = CPU {
            pc: PROGRAM_START,
            stack: [0; 16],
            sp: 0,
            i: 0,
            dt: 0,
            st: 0,
            v: [0; 16],
            memory: [0; 4096],
            keyboard: Keyboard::new(),
            display: Display::new(),
        };
        cpu.load_font();
        proof {
            assert(cpu.stack@ =~= initial_state(default_keymap(), false).stack);
            assert(cpu.v@ =~= initial_state(default_keymap(), false).v);
            assert(cpu.memory@ =~= initial_state(default_keymap(), false).memory);
            assert(cpu.display.fb@ =~= initial_state(default_keymap(), false).fb);
            assert(cpu.keyboard.keys@ =~= initial_state(default_keymap(), false).keys);
        }
        cpu
    }

    /// Returns the machine to its reset state; the key binding is kept.
    pub fn reset(&mut self)
        ensures
            final(self)@ == initial_state(old(self)@.keymap, true),
            final(self).wf(),
    {
        self.pc = PROGRAM_START;
        self.stack = [0; 16];
        self.sp = 0;
        self.i = 0;
        self.dt = 0;
        self.st = 0;
        self.v = [0; 16];
        self.memory = [0; 4096];
        self.keyboard.clear();
        self.display.clear();
        self.load_font();
        proof {
            let t = initial_state(old(self)@.keymap, true);
            assert(self.stack@ =~= t.stack);
            assert(self.v@ =~= t.v);
            assert(self.memory@ =~= t.memory);
            assert(self.display.fb@ =~= t.fb);
            assert(self.keyboard.keys@ =~= t.keys);
        }
    }

    /// Copies a program image to `PROGRAM_START`; an image longer than `MAX_ROM_LEN`
    /// is refused and memory is left as it was.
    pub fn load_rom(&mut self, rom: &[u8]) -> (r: Result<(), Fault>)
        ensures
            rom@.len() > MAX_ROM_LEN ==> r == Err::<(), Fault>(Fault::RomTooLarge { len: rom@.len() as usize })
                && final(self)@ == old(self)@,
            rom@.len() <= MAX_ROM_LEN ==> r is Ok && final(self)@ == (MachineState {
                memory: with_program(old(self)@.memory, rom@),
                ..old(self)@
            }),
            final(self).sp == old(self).sp,
    {
        let len: usize = rom.len();
        if len > MAX_ROM_LEN {
            return Err(Fault::RomTooLarge { len });
        }
        let ghost s = self@;
        let base: usize = PROGRAM_START as usize;
        let mut k: usize = 0;
        while k < len
            invariant
                len == rom@.len(),
                len <= MAX_ROM_LEN,
                base == PROGRAM_START,
                k <= len,
                s.memory.len() == MEMORY_SIZE,
                self.memory@.len() == MEMORY_SIZE,
                self@ == (MachineState { memory: self@.memory, ..s }),
                self.memory@ =~= s.memory.take(base as int) + rom@.take(k as int) + s.memory.skip(
                    base + k,
                ),
            decreases len - k,
        {
            self.memory[base + k] = rom[k];
            k = k + 1;
            assert(self.memory@ =~= s.memory.take(base as int) + rom@.take(k as int)
                + s.memory.skip(base + k));
        }
        assert(rom@.take(len as int) =~= rom@);
        Ok(())
    }

    fn fetch_opcode(&self) -> (r: u16)
        requires
            self.pc + 1 < MEMORY_SIZE,
        ensures
            r == opcode_at(self.memory@, self.pc as int),
    {
        let pc: usize = self.pc as usize;
        self.memory[pc] as u16 * 256 + self.memory[pc + 1] as u16
    }

    /// Fetches, decodes and executes one instruction. `entropy` is the random byte
    /// used if the instruction is `RND`.
    pub fn exec_cycle(&mut self, entropy: u8) -> (r: Result<(), Fault>)
        requires
            old(self).wf(),
        ensures
            realizes(r, final(self)@, step(old(self)@, entropy)),
            final(self).wf(),
    {
        if self.pc as usize + 1 >= MEMORY_SIZE {
            return Err(Fault::PcOutOfRange { pc: self.pc });
        }
        let opcode: u16 = self.fetch_opcode();
        self.pc = self.pc + 2;
        self.process_opcode(opcode, entropy)
    }

    /// One 60 Hz tick of the delay and sound timers. Returns whether the buzzer
    /// should sound, that is whether the sound timer was running.
    pub fn update_timers(&mut self) -> (buzz: bool)
        ensures
            final(self)@ == tick(old(self)@),
            buzz == (old(self).st > 0),
            final(self).wf() == old(self).wf(),
    {
        if self.dt > 0 {
            self.dt = self.dt - 1;
        }
        if self.st > 0 {
            self.st = self.st - 1;
            true
        } else {
            false
        }
    }

    fn load_font(&mut self)
        ensures
            final(self)@ == (MachineState {
                memory: font() + old(self)@.memory.subrange(80, MEMORY_SIZE as int),
                ..old(self)@
            }),
    {
        let ghost s = self@;
        let glyphs: [u8; 80] = [
            0xF0, 0x90, 0x90, 0x90, 0xF0, // 0
            0x20, 0x60, 0x20, 0x20, 0x70, // 1
            0xF0, 0x10, 0xF0, 0x80, 0xF0, // 2
            0xF0, 0x10, 0xF0, 0x10, 0xF0, // 3
            0x90, 0x90, 0xF0, 0x10, 0x10, // 4
            0xF0, 0x80, 0xF0, 0x10, 0xF0, // 5
            0xF0, 0x80, 0xF0, 0x90, 0xF0, // 6
            0xF0, 0x10, 0x20, 0x40, 0x40, // 7
            0xF0, 0x90, 0xF0, 0x90, 0xF0, // 8
            0xF0, 0x90, 0xF0, 0x10, 0xF0, // 9
            0xF0, 0x90, 0xF0, 0x90, 0x90, // A
            0xE0, 0x90, 0xE0, 0x90, 0xE0, // B
            0xF0, 0x80, 0x80, 0x80, 0xF0, // C
            0xE0, 0x90, 0x90, 0x90, 0xE0, // D
            0xF0, 0x80, 0xF0, 0x80, 0xF0, // E
            0xF0, 0x80, 0xF0, 0x80, 0x80, // F
        ];
        assert(glyphs@ =~= font());
        let mut k: usize = 0;
        while k < 80
            invariant
                k <= 80,
                glyphs@ == font(),
                s.memory.len() == MEMORY_SIZE,
                self.memory@.len() == MEMORY_SIZE,
                self@ == (MachineState { memory: self@.memory, ..s }),
                self.memory@ =~= glyphs@.take(k as int) + s.memory.subrange(k as int, MEMORY_SIZE as int),
            decreases 80 - k,
        {
            self.memory[k] = glyphs[k];
            k = k + 1;
            assert(self.memory@ =~= glyphs@.take(k as int) + s.memory.subrange(k as int, MEMORY_SIZE as int));
        }
        assert(glyphs@.take(80) =~= font());
    }

    fn process_opcode(&mut self, opcode: u16, entropy: u8) -> (r: Result<(), Fault>)
        requires
            old(self).wf(),
            2 <= old(self).pc <= MEMORY_SIZE,
        ensures
            realizes(r, final(self)@, execute(old(self)@, opcode, entropy)),
            final(self).wf(),
    {
        match opcode / 4096 {
            0x0 | 0x1 | 0x2 | 0xB => self.exec_flow(opcode),
            0x3 | 0x4 | 0x5 | 0x9 | 0xE => self.exec_cond(opcode),
            0x6 | 0x7 | 0xA | 0xC | 0xD => self.exec_load(opcode, entropy),
            0x8 => self.exec_alu(opcode),
            _ => self.exec_misc(opcode),
        }
    }

    /// Clear screen, return, jumps and calls.
    #[verifier::rlimit(50)]
    fn exec_flow(&mut self, opcode: u16) -> (r: Result<(), Fault>)
        requires
            old(self).wf(),
            2 <= old(self).pc <= MEMORY_SIZE,
            opcode / 4096 == 0x0 || opcode / 4096 == 0x1 || opcode / 4096 == 0x2 || opcode / 4096 == 0xB,
        ensures
            realizes(r, final(self)@, execute(old(self)@, opcode, 0)),
            final(self).wf(),
    {
        let op_4: u16 = opcode / 4096;
        let op_3: u16 = (opcode / 256) % 16;
        let op_2: u16 = (opcode / 16) % 16;
        let op_1: u16 = opcode % 16;
        let nnn: u16 = opcode % 4096;
        match (op_4, op_3, op_2, op_1) {
            // CLS
            (0x0, 0x0, 0xE, 0x0) => {
                self.display.clear();
                assert(self.display.fb@ =~= Seq::new(2048, |p: int| false));
            },
            // RET
            (0x0, 0x0, 0xE, 0xE) => {
                if self.sp == 0 {
                    return Err(Fault::StackUnderflow { opcode });
                }
                self.sp = self.sp - 1;
                self.pc = self.stack[self.sp as usize];
            },
            // JP addr
            (0x1, _, _, _) => {
                self.pc = nnn;
            },
            // CALL addr
            (0x2, _, _, _) => {
                if self.sp as usize >= STACK_DEPTH {
                    return Err(Fault::StackOverflow { opcode });
                }
                self.stack[self.sp as usize] = self.pc;
                self.sp = self.sp + 1;
                self.pc = nnn;
            },
            // JP V0, addr
            (0xB, _, _, _) => {
                self.pc = nnn + self.v[0] as u16;
            },
            _ => {
                return Err(Fault::InvalidOpcode { opcode });
            },
        }
        Ok(())
    }

    /// Conditional skips.
    #[verifier::rlimit(50)]
    fn exec_cond(&mut self, opcode: u16) -> (r: Result<(), Fault>)
        requires
            old(self).wf(),
            2 <= old(self).pc <= MEMORY_SIZE,
            opcode / 4096 == 0x3 || opcode / 4096 == 0x4 || opcode / 4096 == 0x5 || opcode / 4096 == 0x9 || opcode / 4096 == 0xE,
        ensures
            realizes(r, final(self)@, execute(old(self)@, opcode, 0)),
            final(self).wf(),
    {
        let op_4: u16 = opcode / 4096;
        let op_3: u16 = (opcode / 256) % 16;
        let op_2: u16 = (opcode / 16) % 16;
        let op_1: u16 = opcode % 16;
        let x: usize = op_3 as usize;
        let y: usize = op_2 as usize;
        let kk: u8 = (opcode % 256) as u8;
        let vx: u8 = self.v[x];
        let vy: u8 = self.v[y];
        match (op_4, op_3, op_2, op_1) {
            // SE Vx, byte
            (0x3, _, _, _) => self.skip_when(vx == kk),
            // SNE Vx, byte
            (0x4, _, _, _) => self.skip_when(vx != kk),
            // SE Vx, Vy
            (0x5, _, _, _) => self.skip_when(vx == vy),
            // SNE Vx, Vy
            (0x9, _, _, 0x0) => self.skip_when(vx != vy),
            // SKP Vx
            (0xE, _, 0x9, 0xE) => {
                let pressed: bool = self.keyboard.is_pressed(vx);
                self.skip_when(pressed);
            },
            // SKNP Vx
            (0xE, _, 0xA, 0x1) => {
                let pressed: bool = self.keyboard.is_pressed(vx);
                self.skip_when(!pressed);
            },
            _ => {
                return Err(Fault::InvalidOpcode { opcode });
            },
        }
        Ok(())
    }

    /// Immediate loads, random bytes and drawing.
    #[verifier::rlimit(50)]
    fn exec_load(&mut self, opcode: u16, entropy: u8) -> (r: Result<(), Fault>)
        requires
            old(self).wf(),
            2 <= old(self).pc <= MEMORY_SIZE,
            opcode / 4096 == 0x6 || opcode / 4096 == 0x7 || opcode / 4096 == 0xA || opcode / 4096 == 0xC || opcode / 4096 == 0xD,
        ensures
            realizes(r, final(self)@, execute(old(self)@, opcode, entropy)),
            final(self).wf(),
    {
        let op_4: u16 = opcode / 4096;
        let op_3: u16 = (opcode / 256) % 16;
        let op_2: u16 = (opcode / 16) % 16;
        let op_1: u16 = opcode % 16;
        let nnn: u16 = opcode % 4096;
        let x: usize = op_3 as usize;
        let y: usize = op_2 as usize;
        let n: u16 = op_1;
        let kk: u8 = (opcode % 256) as u8;
        let vx: u8 = self.v[x];
        match (op_4, op_3, op_2, op_1) {
            // LD Vx, byte
            (0x6, _, _, _) => {
                self.v[x] = kk;
            },
            // ADD Vx, byte
            (0x7, _, _, _) => {
                self.v[x] = ((vx as u16 + kk as u16) % 256) as u8;
            },
            // LD I, addr
            (0xA, _, _, _) => {
                self.i = nnn;
            },
            // RND Vx, byte
            (0xC, _, _, _) => {
                self.v[x] = entropy & kk;
            },
            // DRW Vx, Vy, nibble
            (0xD, _, _, _) => {
                if self.i as usize + n as usize > MEMORY_SIZE {
                    return Err(Fault::MemoryOutOfRange { opcode, index: self.i });
                }
                let collision: bool = self.draw(x, y, n);
                self.v[15] = if collision { 1 } else { 0 };
            },
            _ => {
                return Err(Fault::InvalidOpcode { opcode });
            },
        }
        Ok(())
    }

    /// Register-to-register arithmetic and logic.
    #[verifier::rlimit(50)]
    fn exec_alu(&mut self, opcode: u16) -> (r: Result<(), Fault>)
        requires
            old(self).wf(),
            2 <= old(self).pc <= MEMORY_SIZE,
            opcode / 4096 == 0x8,
        ensures
            realizes(r, final(self)@, execute(old(self)@, opcode, 0)),
            final(self).wf(),
    {
        let op_4: u16 = opcode / 4096;
        let op_3: u16 = (opcode / 256) % 16;
        let op_2: u16 = (opcode / 16) % 16;
        let op_1: u16 = opcode % 16;
        let x: usize = op_3 as usize;
        let y: usize = op_2 as usize;
        let vx: u8 = self.v[x];
        let vy: u8 = self.v[y];
        match (op_4, op_3, op_2, op_1) {
            // LD Vx, Vy
            (0x8, _, _, 0x0) => {
                self.v[x] = vy;
            },
            // OR Vx, Vy
            (0x8, _, _, 0x1) => {
                self.v[x] = vx | vy;
            },
            // AND Vx, Vy
            (0x8, _, _, 0x2) => {
                self.v[x] = vx & vy;
            },
            // XOR Vx, Vy
            (0x8, _, _, 0x3) => {
                self.v[x] = vx ^ vy;
            },
            // ADD Vx, Vy
            (0x8, _, _, 0x4) => {
                let sum: u16 = vx as u16 + vy as u16;
                self.set_with_flag(x, (sum % 256) as u8, if sum >= 256 { 1 } else { 0 });
            },
            // SUB Vx, Vy
            (0x8, _, _, 0x5) => {
                let diff: u16 = (vx as u16 + 256 - vy as u16) % 256;
                proof {
                    lemma_mod_add_multiples_vanish(vx - vy, 256);
                }
                self.set_with_flag(x, diff as u8, if vx >= vy { 1 } else { 0 });
            },
            // SHR Vx
            (0x8, _, _, 0x6) => self.set_with_flag(x, vx / 2, vx % 2),
            // SUBN Vx, Vy
            (0x8, _, _, 0x7) => {
                let diff: u16 = (vy as u16 + 256 - vx as u16) % 256;
                proof {
                    lemma_mod_add_multiples_vanish(vy - vx, 256);
                }
                self.set_with_flag(x, diff as u8, if vy >= vx { 1 } else { 0 });
            },
            // SHL Vx
            (0x8, _, _, 0xE) => {
                let doubled: u16 = (vx as u16 * 2) % 256;
                self.set_with_flag(x, doubled as u8, if vx >= 128 { 1 } else { 0 });
            },
            _ => {
                return Err(Fault::InvalidOpcode { opcode });
            },
        }
        Ok(())
    }

    /// Timers, keypad wait, index register and memory transfers.
    #[verifier::rlimit(50)]
    fn exec_misc(&mut self, opcode: u16) -> (r: Result<(), Fault>)
        requires
            old(self).wf(),
            2 <= old(self).pc <= MEMORY_SIZE,
            opcode / 4096 == 0xF,
        ensures
            realizes(r, final(self)@, execute(old(self)@, opcode, 0)),
            final(self).wf(),
    {
        let op_4: u16 = opcode / 4096;
        let op_3: u16 = (opcode / 256) % 16;
        let op_2: u16 = (opcode / 16) % 16;
        let op_1: u16 = opcode % 16;
        let x: usize = op_3 as usize;
        let vx: u8 = self.v[x];
        match (op_4, op_3, op_2, op_1) {
            // LD Vx, DT
            (0xF, _, 0x0, 0x7) => {
                self.v[x] = self.dt;
            },
            // LD Vx, K
            (0xF, _, 0x0, 0xA) => match self.keyboard.first_pressed() {
                Some(key) => {
                    self.v[x] = key;
                },
                None => {
                    self.pc = self.pc - 2;
                },
            },
            // LD DT, Vx
            (0xF, _, 0x1, 0x5) => {
                self.dt = vx;
            },
            // LD ST, Vx
            (0xF, _, 0x1, 0x8) => {
                self.st = vx;
            },
            // ADD I, Vx
            (0xF, _, 0x1, 0xE) => {
                self.i = ((self.i as u32 + vx as u32) % 65536) as u16;
            },
            // LD F, Vx
            (0xF, _, 0x2, 0x9) => {
                self.i = vx as u16 * 5;
            },
            // LD B, Vx
            (0xF, _, 0x3, 0x3) => {
                if self.i as usize + 3 > MEMORY_SIZE {
                    return Err(Fault::MemoryOutOfRange { opcode, index: self.i });
                }
                let base: usize = self.i as usize;
                self.memory[base] = vx / 100;
                self.memory[base + 1] = (vx / 10) % 10;
                self.memory[base + 2] = vx % 10;
            },
            // LD [I], Vx
            (0xF, _, 0x5, 0x5) => {
                if self.i as usize + x + 1 > MEMORY_SIZE {
                    return Err(Fault::MemoryOutOfRange { opcode, index: self.i });
                }
                self.store_registers(x);
            },
            // LD Vx, [I]
            (0xF, _, 0x6, 0x5) => {
                if self.i as usize + x + 1 > MEMORY_SIZE {
                    return Err(Fault::MemoryOutOfRange { opcode, index: self.i });
                }
                self.load_registers(x);
            },
            _ => {
                return Err(Fault::InvalidOpcode { opcode });
            },
        }
        Ok(())
    }

    fn skip_when(&mut self, cond: bool)
        requires
            old(self).pc <= MEMORY_SIZE,
        ensures
            final(self)@ == skip_if(old(self)@, cond),
    {
        if cond {
            self.pc = self.pc + 2;
        }
    }

    fn set_with_flag(&mut self, x: usize, val: u8, flag: u8)
        requires
            x < 16,
        ensures
            final(self)@ == set_reg_flag(old(self)@, x as int, val, flag),
    {
        self.v[x] = val;
        self.v[15] = flag;
    }

    fn draw(&mut self, x: usize, y: usize, n: u16) -> (collision: bool)
        requires
            x < 16,
            y < 16,
            old(self).i + n <= MEMORY_SIZE,
        ensures
            ({
                let s = old(self)@;
                let sprite = s.memory.subrange(s.i as int, s.i + n);
                &&& final(self)@ == (MachineState {
                    fb: draw_fb(s.fb, s.v[x as int] as int, s.v[y as int] as int, sprite),
                    need_redraw: true,
                    ..s
                })
                &&& collision == draw_collides(s.fb, s.v[x as int] as int, s.v[y as int] as int, sprite)
            }),
    {
        let start: usize = self.i as usize;
        let len: usize = n as usize;
        let mut rows: Vec<u8> = Vec::new();
        let mut k: usize = 0;
        while k < len
            invariant
                start + len <= MEMORY_SIZE,
                k <= len,
                rows@ == self.memory@.subrange(start as int, start + k),
            decreases len - k,
        {
            rows.push(self.memory[start + k]);
            k = k + 1;
            assert(rows@ =~= self.memory@.subrange(start as int, start + k));
        }
        self.display.draw_sprite(self.v[x] as usize, self.v[y] as usize, rows.as_slice())
    }

    fn store_registers(&mut self, x: usize)
        requires
            x < 16,
            old(self).i + x + 1 <= MEMORY_SIZE,
        ensures
            ({
                let s = old(self)@;
                final(self)@ == (MachineState {
                    memory: Seq::new(
                        s.memory.len(),
                        |a: int|
                            if s.i <= a <= s.i + x {
                                s.v[a - s.i]
                            } else {
                                s.memory[a]
                            },
                    ),
                    ..s
                })
            }),
    {
        let ghost s = self@;
        let base: usize = self.i as usize;
        let mut idx: usize = 0;
        while idx <= x
            invariant
                base == s.i,
                x < 16,
                base + x + 1 <= MEMORY_SIZE,
                idx <= x + 1,
                self@ == (MachineState { memory: self@.memory, ..s }),
                self.memory@.len() == s.memory.len(),
                forall|a: int|
                    0 <= a < s.memory.len() ==> self.memory@[a] == if base <= a < base + idx {
                        s.v[a - base]
                    } else {
                        s.memory[a]
                    },
            decreases x + 1 - idx,
        {
            self.memory[base + idx] = self.v[idx];
            idx = idx + 1;
        }
        assert(self.memory@ =~= Seq::new(
            s.memory.len(),
            |a: int|
                if s.i <= a <= s.i + x {
                    s.v[a - s.i]
                } else {
                    s.memory[a]
                },
        ));
    }

    fn load_registers(&mut self, x: usize)
        requires
            x < 16,
            old(self).i + x + 1 <= MEMORY_SIZE,
        ensures
            ({
                let s = old(self)@;
                final(self)@ == (MachineState {
                    v: Seq::new(
                        s.v.len(),
                        |r: int|
                            if r <= x {
                                s.memory[s.i + r]
                            } else {
                                s.v[r]
                            },
                    ),
                    ..s
                })
            }),
    {
        let ghost s = self@;
        let base: usize = self.i as usize;
        let mut idx: usize = 0;
        while idx <= x
            invariant
                base == s.i,
                x < 16,
                base + x + 1 <= MEMORY_SIZE,
                idx <= x + 1,
                self@ == (MachineState { v: self@.v, ..s }),
                forall|r: int|
                    0 <= r < 16 ==> self.v@[r] == if r < idx {
                        s.memory[base + r]
                    } else {
                        s.v[r]
                    },
            decreases x + 1 - idx,
        {
            self.v[idx] = self.memory[base + idx];
            idx = idx + 1;
        }
        assert(self.v@ =~= Seq::new(
            s.v.len(),
            |r: int|
                if r <= x {
                    s.memory[s.i + r]
                } else {
                    s.v[r]
                },
        ));
    }
}

} // verus!
