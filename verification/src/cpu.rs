//! The fetch-decode-execute engine.
//!
//! A `Cpu` owns the 4096-byte memory image, sixteen 8-bit registers, the
//! index register, the program counter, a 32-entry call stack, two timers,
//! the framebuffer and the keypad tracker. One `do_cycle` fetches the
//! big-endian instruction word at the program counter, advances the counter
//! by two before dispatch, and applies exactly one instruction's effects,
//! as given by the transition function `spec_step`. Unrecognized words are
//! no-ops. Call-stack overflow, index overflow past the memory bound and
//! the like are not guarded by the emulated machine; the preconditions in
//! `step_ok` exclude exactly those malformed situations.

use vstd::prelude::*;
use crate::display;
use crate::display::Display;
use crate::keypad::Keypad;

verus! {

/// Where the built-in glyph font starts in memory.
pub const FONT_HEAD: usize = 0x050;

/// The built-in glyph font: sixteen 5-byte glyphs for digits 0 through F.
pub open spec fn font() -> Seq<u8> {
    seq![
        0xF0u8, 0x90, 0x90, 0x90, 0xF0, // 0
        0x20, 0x60, 0x20, 0x20, 0x70, // 1
        0xF0, 0x10, 0xF0, 0x80, 0xF0, // 2
        0xF0, 0x10, 0xF0, 0x10, 0xF0, // 3
        0x90, 0x90, 0xF0, 0x10, 0x10, // 4
        0xF0, 0x80, 0xF0, 0x10, 0xF0, // 5
        0xF0, 0x80, 0xF0, 0x90, 0xF0, // 6
        0xF0, 0x10, 0x20, 0x40, 0x40, // 7
        0xF0, 0x90, 0xF0, 0x90, 0xF0, // 8
        0xF0, 0x90, 0xF0, 0x10, 0xF0, // 9
        0xF0, 0x90, 0xF0, 0x90, 0x90, // A
        0xE0, 0x90, 0xE0, 0x90, 0xE0, // B
        0xF0, 0x80, 0x80, 0x80, 0xF0, // C
        0xE0, 0x90, 0x90, 0x90, 0xE0, // D
        0xF0, 0x80, 0xF0, 0x80, 0xF0, // E
        0xF0, 0x80, 0xF0, 0x80, 0x80, // F
    ]
}

/// The mathematical state of the whole machine.
#[verifier::ext_equal]
pub ghost struct CpuModel {
    pub mem: Seq<u8>,
    pub grid: Seq<bool>,
    pub keys: Seq<bool>,
    pub last_released: int,
    pub just_released: bool,
    pub pc: int,
    pub index: int,
    pub stack: Seq<u16>,
    pub sp: int,
    pub delay: u8,
    pub sound: u8,
    pub v: Seq<u8>,
    pub draw_flag: bool,
}

/// A decoded instruction word: the four nibbles, high to low.
#[derive(Debug)]
pub struct Opcode(pub u8, pub u8, pub u8, pub u8);

/// The four nibbles of the instruction word at the program counter.
pub open spec fn decode(s: CpuModel) -> Opcode {
    Opcode(
        s.mem[s.pc] / 16,
        s.mem[s.pc] % 16,
        s.mem[s.pc + 1] / 16,
        s.mem[s.pc + 1] % 16,
    )
}

/// The 8-bit immediate of an instruction: its low byte.
pub open spec fn imm_of(op: Opcode) -> u8 {
    (op.2 * 16 + op.3) as u8
}

/// The 12-bit address of an instruction: its low three nibbles.
pub open spec fn addr_of(op: Opcode) -> int {
    op.1 as int * 256 + op.2 as int * 16 + op.3 as int
}

/// Addition on a register, wrapping at the byte bound.
pub open spec fn wrap_add(a: u8, b: u8) -> u8 {
    if a + b > 255 {
        (a + b - 256) as u8
    } else {
        (a + b) as u8
    }
}

/// Subtraction on a register, wrapping at the byte bound.
pub open spec fn wrap_sub(a: u8, b: u8) -> u8 {
    if a < b {
        (a - b + 256) as u8
    } else {
        (a - b) as u8
    }
}

/// A timer decrement, clamped at zero.
pub open spec fn tick(t: u8) -> u8 {
    if t > 0 {
        (t - 1) as u8
    } else {
        0
    }
}

/// Which instructions may add an extra skip to the program counter.
pub open spec fn skip_class(op: Opcode) -> bool {
    op.0 == 0x3 || op.0 == 0x4 || op.0 == 0x5 || op.0 == 0x9 || op.0 == 0xE
}

/// What a dispatch of `op` in state `s` needs so that the machine's
/// unguarded operations stay inside their bounds. Programs that break
/// these bounds have undefined behaviour on the emulated machine.
pub open spec fn op_ok(s: CpuModel, op: Opcode) -> bool {
    &&& (op.0 == 0x0 && op.1 == 0x0 && op.2 == 0xE && op.3 == 0xE ==> s.sp >= 1)
    &&& (op.0 == 0x2 ==> s.sp < 32)
    &&& (skip_class(op) ==> s.pc + 2 <= u16::MAX)
    &&& (op.0 == 0xD ==> s.index + op.3 <= 4096)
    &&& (op.0 == 0xE && (op.2 == 0x9 && op.3 == 0xE || op.2 == 0xA && op.3 == 0x1) ==> s.v[op.1 as int] < 16)
    &&& (op.0 == 0xF && op.2 == 0x0 && op.3 == 0xA && !s.just_released ==> s.pc >= 2)
    &&& (op.0 == 0xF && op.2 == 0x1 && op.3 == 0xE ==> s.index + s.v[op.1 as int] <= usize::MAX)
    &&& (op.0 == 0xF && op.2 == 0x3 && op.3 == 0x3 ==> s.index + 2 < 4096)
    &&& (op.0 == 0xF && (op.2 == 0x5 || op.2 == 0x6) && op.3 == 0x5 ==> s.index + op.1 < 4096)
}

/// What a whole fetch-dispatch cycle in state `s` needs: the instruction
/// word lies in memory, and its dispatch stays inside the bounds.
pub open spec fn step_ok(s: CpuModel) -> bool {
    &&& 0 <= s.pc
    &&& s.pc + 1 < 4096
    &&& op_ok(CpuModel { pc: s.pc + 2, ..s }, decode(s))
}

/// The effect of dispatching the already-decoded instruction `op` on
/// state `s`, whose program counter has already been advanced past the
/// instruction word. `rnd` is the byte drawn for the random instruction.
pub open spec fn spec_exec_op(s: CpuModel, op: Opcode, rnd: u8) -> CpuModel {
    let x = op.1 as int;
    let y = op.2 as int;
    let n = op.3;
    let nn = imm_of(op);
    let nnn = addr_of(op);
    if op.0 == 0x0 && op.1 == 0x0 && op.2 == 0xE && op.3 == 0x0 {
        // clear screen
        CpuModel { grid: display::blank_grid(), draw_flag: true, ..s }
    } else if op.0 == 0x0 && op.1 == 0x0 && op.2 == 0xE && op.3 == 0xE {
        // return
        CpuModel { sp: s.sp - 1, pc: s.stack[s.sp - 1] as int, ..s }
    } else if op.0 == 0x1 {
        // jump
        CpuModel { pc: nnn, ..s }
    } else if op.0 == 0x2 {
        // call subroutine
        CpuModel { stack: s.stack.update(s.sp, s.pc as u16), sp: s.sp + 1, pc: nnn, ..s }
    } else if op.0 == 0x3 {
        // skip if equal immediate
        if s.v[x] == nn {
            CpuModel { pc: s.pc + 2, ..s }
        } else {
            s
        }
    } else if op.0 == 0x4 {
        // skip if not equal immediate
        if s.v[x] != nn {
            CpuModel { pc: s.pc + 2, ..s }
        } else {
            s
        }
    } else if op.0 == 0x5 {
        // skip if registers match
        if s.v[x] == s.v[y] {
            CpuModel { pc: s.pc + 2, ..s }
        } else {
            s
        }
    } else if op.0 == 0x6 {
        // set register to immediate
        CpuModel { v: s.v.update(x, nn), ..s }
    } else if op.0 == 0x7 {
        // add immediate, no flag
        CpuModel { v: s.v.update(x, wrap_add(s.v[x], nn)), ..s }
    } else if op.0 == 0x8 && op.3 == 0x0 {
        // copy register
        CpuModel { v: s.v.update(x, s.v[y]), ..s }
    } else if op.0 == 0x8 && op.3 == 0x1 {
        // bitwise or
        CpuModel { v: s.v.update(x, s.v[x] | s.v[y]), ..s }
    } else if op.0 == 0x8 && op.3 == 0x2 {
        // bitwise and
        CpuModel { v: s.v.update(x, s.v[x] & s.v[y]), ..s }
    } else if op.0 == 0x8 && op.3 == 0x3 {
        // bitwise xor
        CpuModel { v: s.v.update(x, s.v[x] ^ s.v[y]), ..s }
    } else if op.0 == 0x8 && op.3 == 0x4 {
        // add with carry flag
        CpuModel {
            v: s.v.update(x, wrap_add(s.v[x], s.v[y])).update(
                15,
                if s.v[x] + s.v[y] > 255 {
                    1u8
                } else {
                    0u8
                },
            ),
            ..s
        }
    } else if op.0 == 0x8 && op.3 == 0x5 {
        // subtract with inverted borrow flag
        CpuModel {
            v: s.v.update(x, wrap_sub(s.v[x], s.v[y])).update(
                15,
                if s.v[x] < s.v[y] {
                    0u8
                } else {
                    1u8
                },
            ),
            ..s
        }
    } else if op.0 == 0x8 && op.3 == 0x6 {
        // shift right, low bit into the flag first
        let v1 = s.v.update(15, s.v[x] % 2);
        CpuModel { v: v1.update(x, v1[x] / 2), ..s }
    } else if op.0 == 0x8 && op.3 == 0x7 {
        // reversed subtract with inverted borrow flag
        CpuModel {
            v: s.v.update(x, wrap_sub(s.v[y], s.v[x])).update(
                15,
                if s.v[y] < s.v[x] {
                    0u8
                } else {
                    1u8
                },
            ),
            ..s
        }
    } else if op.0 == 0x8 && op.3 == 0xE {
        // shift left; the flag takes bit 3 of the pre-shift value, as this
        // machine does, where the conventional instruction takes bit 7
        let v1 = s.v.update(15, (s.v[x] / 8) % 2);
        CpuModel { v: v1.update(x, wrap_add(v1[x], v1[x])), ..s }
    } else if op.0 == 0x9 {
        // skip if registers differ
        if s.v[x] != s.v[y] {
            CpuModel { pc: s.pc + 2, ..s }
        } else {
            s
        }
    } else if op.0 == 0xA {
        // set index register
        CpuModel { index: nnn, ..s }
    } else if op.0 == 0xB {
        // jump to register 0 plus address
        CpuModel { pc: s.v[0] as int + nnn, ..s }
    } else if op.0 == 0xC {
        // random byte masked by the immediate
        CpuModel { v: s.v.update(x, rnd & nn), ..s }
    } else if op.0 == 0xD {
        // draw sprite, collision into the flag
        let sprite = s.mem.subrange(s.index, s.index + n);
        let coll = display::spec_collision(s.grid, s.v[x] as int, s.v[y] as int, sprite);
        CpuModel {
            grid: display::spec_draw(s.grid, s.v[x] as int, s.v[y] as int, sprite),
            v: s.v.update(
                15,
                if coll {
                    1u8
                } else {
                    0u8
                },
            ),
            draw_flag: true,
            ..s
        }
    } else if op.0 == 0xE && op.2 == 0x9 && op.3 == 0xE {
        // skip if key pressed
        if s.keys[s.v[x] as int] {
            CpuModel { pc: s.pc + 2, ..s }
        } else {
            s
        }
    } else if op.0 == 0xE && op.2 == 0xA && op.3 == 0x1 {
        // skip if key not pressed
        if !s.keys[s.v[x] as int] {
            CpuModel { pc: s.pc + 2, ..s }
        } else {
            s
        }
    } else if op.0 == 0xF && op.2 == 0x0 && op.3 == 0x7 {
        // read delay timer
        CpuModel { v: s.v.update(x, s.delay), ..s }
    } else if op.0 == 0xF && op.2 == 0x1 && op.3 == 0x5 {
        // write delay timer
        CpuModel { delay: s.v[x], ..s }
    } else if op.0 == 0xF && op.2 == 0x1 && op.3 == 0x8 {
        // write sound timer
        CpuModel { sound: s.v[x], ..s }
    } else if op.0 == 0xF && op.2 == 0x1 && op.3 == 0xE {
        // add register to index, flag on memory-bound overflow
        CpuModel {
            index: s.index + s.v[x],
            v: s.v.update(
                15,
                if s.index + s.v[x] >= 0x1000 {
                    1u8
                } else {
                    0u8
                },
            ),
            ..s
        }
    } else if op.0 == 0xF && op.2 == 0x0 && op.3 == 0xA {
        // wait for a key release: take it, or rewind to repeat the poll
        if s.just_released {
            CpuModel { v: s.v.update(x, s.last_released as u8), ..s }
        } else {
            CpuModel { pc: s.pc - 2, ..s }
        }
    } else if op.0 == 0xF && op.2 == 0x2 && op.3 == 0x9 {
        // point the index at the glyph for the register's low nibble
        CpuModel { index: 0x50 + (s.v[x] % 16) * 5, ..s }
    } else if op.0 == 0xF && op.2 == 0x3 && op.3 == 0x3 {
        // binary-coded decimal of the register into memory
        CpuModel {
            mem: s.mem.update(s.index, (((s.v[x] / 100) % 10) as u8)).update(
                s.index + 1,
                (((s.v[x] / 10) % 10) as u8),
            ).update(s.index + 2, ((s.v[x] % 10) as u8)),
            ..s
        }
    } else if op.0 == 0xF && op.2 == 0x5 && op.3 == 0x5 {
        // store registers 0..=X into memory at the index
        CpuModel {
            mem: Seq::new(
                4096,
                |i: int|
                    if s.index <= i <= s.index + x {
                        s.v[i - s.index]
                    } else {
                        s.mem[i]
                    },
            ),
            ..s
        }
    } else if op.0 == 0xF && op.2 == 0x6 && op.3 == 0x5 {
        // recall registers 0..=X from memory at the index
        CpuModel {
            v: Seq::new(
                16,
                |i: int|
                    if i <= x {
                        s.mem[s.index + i]
                    } else {
                        s.v[i]
                    },
            ),
            ..s
        }
    } else {
        // decode miss: a no-op
        s
    }
}

/// One whole cycle: fetch the word at the program counter, advance the
/// counter by two, then dispatch.
pub open spec fn spec_step(s: CpuModel, rnd: u8) -> CpuModel {
    spec_exec_op(CpuModel { pc: s.pc + 2, ..s }, decode(s), rnd)
}

/// Law: a jump sets the program counter to exactly the instruction's
/// address, whatever the counter held before.
pub proof fn lemma_jump_sets_pc(s: CpuModel, rnd: u8)
    requires
        decode(s).0 == 0x1,
    ensures
        spec_step(s, rnd).pc == addr_of(decode(s)),
{
}

/// How many program bytes a load takes: the whole program, or as much of
/// it as fits between the entry point and the end of memory.
pub open spec fn load_count(prog: Seq<u8>) -> int {
    if prog.len() <= 3584 {
        prog.len() as int
    } else {
        3584
    }
}

/// Memory after a load: the accepted program bytes sit at the entry point
/// and everything else is untouched.
pub open spec fn loaded_memory(mem: Seq<u8>, prog: Seq<u8>) -> Seq<u8> {
    Seq::new(
        4096,
        |i: int|
            if 0x200 <= i < 0x200 + load_count(prog) {
                prog[i - 0x200]
            } else {
                mem[i]
            },
    )
}

/// Law: loading a program of length L places byte i at address 0x200 + i
/// for every i below L and the capacity, and leaves every address below
/// the entry point, the font region included, untouched.
pub proof fn lemma_load_program(mem: Seq<u8>, prog: Seq<u8>, i: int)
    requires
        mem.len() == 4096,
    ensures
        0 <= i < load_count(prog) ==> loaded_memory(mem, prog)[0x200 + i] == prog[i],
        0 <= i < 0x200 ==> loaded_memory(mem, prog)[i] == mem[i],
{
}

/// The machine as it powers up: zeroed but for the font image and the
/// program counter at the entry point.
pub open spec fn initial_cpu() -> CpuModel {
    CpuModel {
        mem: Seq::new(
            4096,
            |i: int|
                if 0x50 <= i < 0xA0 {
                    font()[i - 0x50]
                } else {
                    0u8
                },
        ),
        grid: display::blank_grid(),
        keys: Seq::new(16, |i: int| false),
        last_released: 0,
        just_released: false,
        pc: 0x200,
        index: 0,
        stack: Seq::new(32, |i: int| 0u16),
        sp: 0,
        delay: 0,
        sound: 0,
        v: Seq::new(16, |i: int| 0u8),
        draw_flag: false,
    }
}

/// The whole machine.
pub struct Cpu {
    pub memory: Vec<u8>,
    pub display: Display,
    pub keypad: Keypad,
    pub pc: u16,
    pub index: usize,
    pub stack: Vec<u16>,
    pub stack_pointer: usize,
    pub delay: u8,
    pub sound: u8,
    pub v: Vec<u8>,
    pub draw_flag: bool,
}

impl View for Cpu {
    type V = CpuModel;

    open spec fn view(&self) -> CpuModel {
        CpuModel {
            mem: self.memory@,
            grid: self.display@,
            keys: self.keypad.state@,
            last_released: self.keypad.last_released as int,
            just_released: self.keypad.just_released,
            pc: self.pc as int,
            index: self.index as int,
            stack: self.stack@,
            sp: self.stack_pointer as int,
            delay: self.delay,
            sound: self.sound,
            v: self.v@,
            draw_flag: self.draw_flag,
        }
    }
}

/// Relies on rand::random: draws one byte from the thread-local generator.
/// Nothing is promised of the value drawn.
#[verifier::external_body]
fn random_byte() -> u8 {
    rand::random::<u8>()
}

fn zero_bytes(n: usize) -> (v: Vec<u8>)
    ensures
        v.len() == n,
        forall|i: int| 0 <= i < n ==> v@[i] == 0,
{
    let mut v: Vec<u8> = Vec::new();
    let mut i: usize = 0;
    while i < n
        invariant
            i <= n,
            v.len() == i,
            forall|j: int| 0 <= j < i ==> v@[j] == 0,
        decreases n - i,
    {
        v.push(0);
        i += 1;
    }
    v
}

fn zero_words(n: usize) -> (v: Vec<u16>)
    ensures
        v.len() == n,
        forall|i: int| 0 <= i < n ==> v@[i] == 0,
{
    let mut v: Vec<u16> = Vec::new();
    let mut i: usize = 0;
    while i < n
        invariant
            i <= n,
            v.len() == i,
            forall|j: int| 0 <= j < i ==> v@[j] == 0,
        decreases n - i,
    {
        v.push(0);
        i += 1;
    }
    v
}

fn font_bytes() -> (v: Vec<u8>)
    ensures
        v@ == font(),
{
    let v: Vec<u8> = vec![
        0xF0, 0x90, 0x90, 0x90, 0xF0, // 0
        0x20, 0x60, 0x20, 0x20, 0x70, // 1
        0xF0, 0x10, 0xF0, 0x80, 0xF0, // 2
        0xF0, 0x10, 0xF0, 0x10, 0xF0, // 3
        0x90, 0x90, 0xF0, 0x10, 0x10, // 4
        0xF0, 0x80, 0xF0, 0x10, 0xF0, // 5
        0xF0, 0x80, 0xF0, 0x90, 0xF0, // 6
        0xF0, 0x10, 0x20, 0x40, 0x40, // 7
        0xF0, 0x90, 0xF0, 0x90, 0xF0, // 8
        0xF0, 0x90, 0xF0, 0x10, 0xF0, // 9
        0xF0, 0x90, 0xF0, 0x90, 0x90, // A
        0xE0, 0x90, 0xE0, 0x90, 0xE0, // B
        0xF0, 0x80, 0x80, 0x80, 0xF0, // C
        0xE0, 0x90, 0x90, 0x90, 0xE0, // D
        0xF0, 0x80, 0xF0, 0x80, 0xF0, // E
        0xF0, 0x80, 0xF0, 0x80, 0x80, // F
    ];
    assert(v@ =~= font());
    v
}

impl Cpu {
    /// Memory, registers and stack hold their fixed sizes and the attached
    /// devices are well formed.
    pub open spec fn wf(&self) -> bool {
        &&& self.memory.len() == 4096
        &&& self.v.len() == 16
        &&& self.stack.len() == 32
        &&& self.stack_pointer <= 32
        &&& self.display.wf()
        &&& self.keypad.wf()
    }

    pub fn new() -> (c: Cpu)
        ensures
            c.wf(),
            c@ == initial_cpu(),
    {
        let mut c = Cpu {
            memory: zero_bytes(4096),
            display: Display::new(),
            keypad: Keypad::new(),
            pc: 0x200,
            index: 0,
            stack: zero_words(32),
            stack_pointer: 0,
            delay: 0,
            sound: 0,
            v: zero_bytes(16),
            draw_flag: false,
        };
        c.init_font();
        assert(c@.mem =~= initial_cpu().mem);
        assert(c@.keys =~= initial_cpu().keys);
        assert(c@.stack =~= initial_cpu().stack);
        assert(c@.v =~= initial_cpu().v);
        assert(c@ =~= initial_cpu());
        c
    }

    /// Writes the glyph font into its reserved region.
    fn init_font(&mut self)
        requires
            old(self).wf(),
        ensures
            final(self).wf(),
            final(self)@ == (CpuModel {
                mem: Seq::new(
                    4096,
                    |i: int|
                        if 0x50 <= i < 0xA0 {
                            font()[i - 0x50]
                        } else {
                            old(self)@.mem[i]
                        },
                ),
                ..old(self)@
            }),
    {
        let glyphs = font_bytes();
        let mut i: usize = 0;
        while i < 80
            invariant
                self.wf(),
                i <= 80,
                glyphs@ == font(),
                self.display == old(self).display,
                self.keypad == old(self).keypad,
                self.pc == old(self).pc,
                self.index == old(self).index,
                self.stack == old(self).stack,
                self.stack_pointer == old(self).stack_pointer,
                self.delay == old(self).delay,
                self.sound == old(self).sound,
                self.v == old(self).v,
                self.draw_flag == old(self).draw_flag,
                forall|k: int| 0 <= k < 4096 ==> self.memory@[k] == (if 0x50 <= k < 0x50 + i {
                    font()[k - 0x50]
                } else {
                    old(self).memory@[k]
                }),
            decreases 80 - i,
        {
            let b = glyphs[i];
            self.memory.set(FONT_HEAD + i, b);
            i += 1;
        }
        proof {
            assert(self@.mem =~= (Seq::new(
                4096,
                |i: int|
                    if 0x50 <= i < 0xA0 {
                        font()[i - 0x50]
                    } else {
                        old(self)@.mem[i]
                    },
            )));
        }
    }

    /// Copies the program image into memory at the entry point, dropping
    /// bytes past the capacity without signalling.
    pub fn read_program(&mut self, program: &[u8])
        requires
            old(self).wf(),
        ensures
            final(self).wf(),
            final(self)@ == (CpuModel { mem: loaded_memory(old(self)@.mem, program@), ..old(self)@ }),
    {
        let count = if program.len() <= 3584 {
            program.len()
        } else {
            3584
        };
        let mut i: usize = 0;
        while i < count
            invariant
                self.wf(),
                i <= count,
                count == load_count(program@),
                self.display == old(self).display,
                self.keypad == old(self).keypad,
                self.pc == old(self).pc,
                self.index == old(self).index,
                self.stack == old(self).stack,
                self.stack_pointer == old(self).stack_pointer,
                self.delay == old(self).delay,
                self.sound == old(self).sound,
                self.v == old(self).v,
                self.draw_flag == old(self).draw_flag,
                forall|k: int| 0 <= k < 4096 ==> self.memory@[k] == (if 0x200 <= k < 0x200 + i {
                    program@[k - 0x200]
                } else {
                    old(self).memory@[k]
                }),
            decreases count - i,
        {
            let b = program[i];
            self.memory.set(0x200 + i, b);
            i += 1;
        }
        proof {
            assert(self@.mem =~= loaded_memory(old(self)@.mem, program@));
        }
    }

    /// Decrements both timers by one, clamping at zero.
    pub fn tick_timers(&mut self)
        requires
            old(self).wf(),
        ensures
            final(self).wf(),
            final(self)@ == (CpuModel {
                delay: tick(old(self)@.delay),
                sound: tick(old(self)@.sound),
                ..old(self)@
            }),
    {
        self.delay = if self.delay > 0 {
            self.delay - 1
        } else {
            self.delay
        };
        self.sound = if self.sound > 0 {
            self.sound - 1
        } else {
            self.sound
        };
    }

    /// One cycle driven by a fresh random byte from the host generator.
    pub fn do_cycle(&mut self)
        requires
            old(self).wf(),
            step_ok(old(self)@),
        ensures
            final(self).wf(),
            exists|rnd: u8| final(self)@ == spec_step(old(self)@, rnd),
    {
        let rnd = random_byte();
        self.do_cycle_with(rnd);
        assert(self@ == spec_step(old(self)@, rnd));
    }

    /// One cycle with the random byte supplied by the caller, so the whole
    /// effect is pinned down by `spec_step`.
    pub fn do_cycle_with(&mut self, rnd: u8)
        requires
            old(self).wf(),
            step_ok(old(self)@),
        ensures
            final(self).wf(),
            final(self)@ == spec_step(old(self)@, rnd),
    {
        let op = self.get_current_opcode();
        self.pc = self.pc + 2;
        assert(self@ =~= (CpuModel { pc: old(self)@.pc + 2, ..old(self)@ }));
        self.process_opcode(&op, rnd);
    }

    /// Splits the big-endian instruction word at the program counter into
    /// its four nibbles.
    fn get_current_opcode(&self) -> (op: Opcode)
        requires
            self.wf(),
            self@.pc + 1 < 4096,
        ensures
            op == decode(self@),
            op.0 < 16,
            op.1 < 16,
            op.2 < 16,
            op.3 < 16,
    {
        let b0 = self.memory[self.pc as usize];
        let b1 = self.memory[self.pc as usize + 1];
        Opcode(b0 / 16, b0 % 16, b1 / 16, b1 % 16)
    }

    /// Dispatches one decoded instruction. The program counter has already
    /// been advanced past the instruction word.
    fn process_opcode(&mut self, opcode: &Opcode, rnd: u8)
        requires
            old(self).wf(),
            opcode.0 < 16,
            opcode.1 < 16,
            opcode.2 < 16,
            opcode.3 < 16,
            op_ok(old(self)@, *opcode),
        ensures
            final(self).wf(),
            final(self)@ == spec_exec_op(old(self)@, *opcode, rnd),
    {
        let x = opcode.1 as usize;
        let y = opcode.2 as usize;
        let n = opcode.3;
        let nn: u8 = opcode.2 * 16 + opcode.3;
        let nnn: u16 = (opcode.1 as u16) * 256 + (nn as u16);
        assert(nn == imm_of(*opcode));
        assert(nnn as int == addr_of(*opcode));
        match *opcode {
            // clear screen
            Opcode(0x0, 0x0, 0xE, 0x0) => {
                self.display.clear();
                self.draw_flag = true;
            }
            // return
            Opcode(0x0, 0x0, 0xE, 0xE) => {
                self.stack_pointer = self.stack_pointer - 1;
                self.pc = self.stack[self.stack_pointer];
            }
            // jump
            Opcode(0x1, _, _, _) => {
                self.pc = nnn;
            }
            // call subroutine
            Opcode(0x2, _, _, _) => {
                self.stack.set(self.stack_pointer, self.pc);
                self.stack_pointer = self.stack_pointer + 1;
                self.pc = nnn;
            }
            // skip if equal immediate
            Opcode(0x3, _, _, _) => {
                if self.v[x] == nn {
                    self.pc = self.pc + 2;
                }
            }
            // skip if not equal immediate
            Opcode(0x4, _, _, _) => {
                if self.v[x] != nn {
                    self.pc = self.pc + 2;
                }
            }
            // skip if registers match
            Opcode(0x5, _, _, _) => {
                if self.v[x] == self.v[y] {
                    self.pc = self.pc + 2;
                }
            }
            // set register to immediate
            Opcode(0x6, _, _, _) => {
                self.v.set(x, nn);
            }
            // add immediate, no flag
            Opcode(0x7, _, _, _) => {
                let sum = self.v[x].wrapping_add(nn);
                self.v.set(x, sum);
            }
            // copy register
            Opcode(0x8, _, _, 0x0) => {
                let vy = self.v[y];
                self.v.set(x, vy);
            }
            // bitwise or
            Opcode(0x8, _, _, 0x1) => {
                let r = self.v[x] | self.v[y];
                self.v.set(x, r);
            }
            // bitwise and
            Opcode(0x8, _, _, 0x2) => {
                let r = self.v[x] & self.v[y];
                self.v.set(x, r);
            }
            // bitwise xor
            Opcode(0x8, _, _, 0x3) => {
                let r = self.v[x] ^ self.v[y];
                self.v.set(x, r);
            }
            // add with carry flag
            Opcode(0x8, _, _, 0x4) => {
                let a = self.v[x];
                let b = self.v[y];
                let sum = a.wrapping_add(b);
                let flag: u8 = if (a as u16) + (b as u16) > 255 {
                    1
                } else {
                    0
                };
                self.v.set(x, sum);
                self.v.set(15, flag);
            }
            // subtract with inverted borrow flag
            Opcode(0x8, _, _, 0x5) => {
                let a = self.v[x];
                let b = self.v[y];
                let diff = a.wrapping_sub(b);
                let flag: u8 = if a < b {
                    0
                } else {
                    1
                };
                self.v.set(x, diff);
                self.v.set(15, flag);
            }
            // shift right, low bit into the flag first
            Opcode(0x8, _, _, 0x6) => {
                let low = self.v[x] % 2;
                self.v.set(15, low);
                let halved = self.v[x] / 2;
                self.v.set(x, halved);
            }
            // reversed subtract with inverted borrow flag
            Opcode(0x8, _, _, 0x7) => {
                let a = self.v[x];
                let b = self.v[y];
                let diff = b.wrapping_sub(a);
                let flag: u8 = if b < a {
                    0
                } else {
                    1
                };
                self.v.set(x, diff);
                self.v.set(15, flag);
            }
            // shift left; the flag takes bit 3 of the pre-shift value
            Opcode(0x8, _, _, 0xE) => {
                let bit3 = (self.v[x] / 8) % 2;
                self.v.set(15, bit3);
                let doubled = self.v[x].wrapping_add(self.v[x]);
                self.v.set(x, doubled);
            }
            // skip if registers differ
            Opcode(0x9, _, _, _) => {
                if self.v[x] != self.v[y] {
                    self.pc = self.pc + 2;
                }
            }
            // set index register
            Opcode(0xA, _, _, _) => {
                self.index = nnn as usize;
            }
            // jump to register 0 plus address
            Opcode(0xB, _, _, _) => {
                self.pc = (self.v[0] as u16) + nnn;
            }
            // random byte masked by the immediate
            Opcode(0xC, _, _, _) => {
                self.v.set(x, rnd & nn);
            }
            // draw sprite, collision into the flag
            Opcode(0xD, _, _, _) => {
                let mut sprite: Vec<u8> = Vec::new();
                let mut j: usize = 0;
                let count = n as usize;
                while j < count
                    invariant
                        self == old(self),
                        self.wf(),
                        j <= count,
                        self@.index + count <= 4096,
                        sprite.len() == j,
                        sprite@ == self.memory@.subrange(
                            self@.index,
                            self@.index + j,
                        ),
                    decreases count - j,
                {
                    let b = self.memory[self.index + j];
                    sprite.push(b);
                    assert(sprite@ =~= self.memory@.subrange(self@.index, self@.index + j + 1));
                    j += 1;
                }
                let coll = self.display.draw(self.v[x] as usize, self.v[y] as usize, sprite.as_slice());
                let flag: u8 = if coll {
                    1
                } else {
                    0
                };
                self.v.set(15, flag);
                self.draw_flag = true;
            }
            // skip if key pressed
            Opcode(0xE, _, 0x9, 0xE) => {
                if self.keypad.state[self.v[x] as usize] {
                    self.pc = self.pc + 2;
                }
            }
            // skip if key not pressed
            Opcode(0xE, _, 0xA, 0x1) => {
                if !self.keypad.state[self.v[x] as usize] {
                    self.pc = self.pc + 2;
                }
            }
            // read delay timer
            Opcode(0xF, _, 0x0, 0x7) => {
                let d = self.delay;
                self.v.set(x, d);
            }
            // write delay timer
            Opcode(0xF, _, 0x1, 0x5) => {
                self.delay = self.v[x];
            }
            // write sound timer
            Opcode(0xF, _, 0x1, 0x8) => {
                self.sound = self.v[x];
            }
            // add register to index, flag on memory-bound overflow
            Opcode(0xF, _, 0x1, 0xE) => {
                self.index = self.index + self.v[x] as usize;
                let flag: u8 = if self.index >= 0x1000 {
                    1
                } else {
                    0
                };
                self.v.set(15, flag);
            }
            // wait for a key release: take it, or rewind to repeat the poll
            Opcode(0xF, _, 0x0, 0xA) => {
                if self.keypad.just_released {
                    let k = self.keypad.last_released as u8;
                    self.v.set(x, k);
                } else {
                    self.pc = self.pc - 2;
                }
            }
            // point the index at the glyph for the register's low nibble
            Opcode(0xF, _, 0x2, 0x9) => {
                let glyph = (self.v[x] % 16) as usize;
                self.index = FONT_HEAD + glyph * 5;
            }
            // binary-coded decimal of the register into memory
            Opcode(0xF, _, 0x3, 0x3) => {
                let val = self.v[x];
                self.memory.set(self.index, (val / 100) % 10);
                self.memory.set(self.index + 1, (val / 10) % 10);
                self.memory.set(self.index + 2, val % 10);
            }
            // store registers 0..=X into memory at the index
            Opcode(0xF, _, 0x5, 0x5) => {
                let mut i: usize = 0;
                while i <= x
                    invariant
                        self.wf(),
                        i <= x + 1,
                        x < 16,
                        self@.index + x < 4096,
                        self.display == old(self).display,
                        self.keypad == old(self).keypad,
                        self.pc == old(self).pc,
                        self.index == old(self).index,
                        self.stack == old(self).stack,
                        self.stack_pointer == old(self).stack_pointer,
                        self.delay == old(self).delay,
                        self.sound == old(self).sound,
                        self.v == old(self).v,
                        self.draw_flag == old(self).draw_flag,
                        forall|k: int| 0 <= k < 4096 ==> self.memory@[k] == (if self@.index <= k
                            < self@.index + i {
                            self@.v[k - self@.index]
                        } else {
                            old(self).memory@[k]
                        }),
                    decreases x + 1 - i,
                {
                    let b = self.v[i];
                    self.memory.set(self.index + i, b);
                    i += 1;
                }
                proof {
                    assert(self@.mem =~= spec_exec_op(old(self)@, *opcode, rnd).mem);
                }
            }
            // recall registers 0..=X from memory at the index
            Opcode(0xF, _, 0x6, 0x5) => {
                let mut i: usize = 0;
                while i <= x
                    invariant
                        self.wf(),
                        i <= x + 1,
                        x < 16,
                        self@.index + x < 4096,
                        self.display == old(self).display,
                        self.keypad == old(self).keypad,
                        self.pc == old(self).pc,
                        self.index == old(self).index,
                        self.stack == old(self).stack,
                        self.stack_pointer == old(self).stack_pointer,
                        self.delay == old(self).delay,
                        self.sound == old(self).sound,
                        self.memory == old(self).memory,
                        self.draw_flag == old(self).draw_flag,
                        forall|k: int| 0 <= k < 16 ==> self.v@[k] == (if k < i {
                            self@.mem[self@.index + k]
                        } else {
                            old(self).v@[k]
                        }),
                    decreases x + 1 - i,
                {
                    let b = self.memory[self.index + i];
                    self.v.set(i, b);
                    i += 1;
                }
                proof {
                    assert(self@.v =~= spec_exec_op(old(self)@, *opcode, rnd).v);
                }
            }
            _ => {}
        }
    }
}

} // verus!
