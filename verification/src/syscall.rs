use crate::cpu::{Cpu, CpuView, A0, A1, A2, A3, A7};
use crate::host::HostRequest;
use crate::memory::{addr_add, in_ram, ram_store_bytes, read_keeps, MemoryOps};
use vstd::prelude::*;

verus! {

/// Unknown syscall number along with the passed arguments
#[derive(Debug, Clone, PartialEq, Eq, Structural)]
pub struct UnknownSyscall {
    pub sys_num: u32,
    pub a0: u32,
    pub a1: u32,
    pub a2: u32,
    pub a3: u32,
}

/// The most bytes one `read` or `write` system call moves (16 MiB).
pub const MAX_IO_BYTES: usize = 16 * 1024 * 1024;

pub open spec fn is_exit(n: u32) -> bool {
    n == 93 || n == 10 || n == 1
}

pub open spec fn is_write(n: u32) -> bool {
    n == 64 || n == 4
}

pub open spec fn is_read(n: u32) -> bool {
    n == 63 || n == 3
}

pub open spec fn is_brk(n: u32) -> bool {
    n == 214 || n == 45
}

/// `close`, `lseek` and `fstat`, which succeed without doing anything.
pub open spec fn is_noop(n: u32) -> bool {
    n == 57 || n == 62 || n == 80
}

/// The system calls the simulator implements itself.
pub open spec fn is_known_syscall(n: u32) -> bool {
    is_exit(n) || is_write(n) || is_read(n) || is_brk(n) || is_noop(n)
}

/// The byte count a `read` or `write` of `len` bytes moves.
pub open spec fn io_count(len: u32) -> int {
    if len < MAX_IO_BYTES {
        len as int
    } else {
        MAX_IO_BYTES as int
    }
}

/// `s` without its trailing zero bytes.
pub open spec fn trim_zeros(s: Seq<u8>) -> Seq<u8>
    decreases s.len(),
{
    if s.len() > 0 && s.last() == 0 {
        trim_zeros(s.drop_last())
    } else {
        s
    }
}

/// How many bytes a `read` of `len` bytes takes from `available` bytes of input.
pub open spec fn read_count(available: int, len: u32) -> int {
    if available < io_count(len) {
        available
    } else {
        io_count(len)
    }
}

/// The effect of system call `pre.reg(17)` once the host has given its
/// answer `answer` and, for a `read`, the standard-input bytes `input`:
/// `brk_ok` says whether memory takes `pre.reg(10)` as the program break.
/// A nonzero answer means the host handled the call and is the value for
/// `a0`; otherwise the simulator runs the call itself.
pub open spec fn ecall_outcome(
    pre: CpuView,
    ram: Map<u32, u8>,
    brk: u32,
    answer: i32,
    input: Seq<u8>,
    brk_ok: bool,
    post: CpuView,
    ram_post: Map<u32, u8>,
    brk_post: u32,
    r: Result<(), UnknownSyscall>,
) -> bool {
    let n = pre.reg(17);
    let a0 = pre.reg(10);
    let a1 = pre.reg(11);
    let a2 = pre.reg(12);
    if answer != 0 {
        r is Ok && post == pre.with_reg(10, answer as u32) && ram_post == ram && brk_post == brk
    } else if is_exit(n) {
        &&& r is Ok
        &&& post == (CpuView { is_halted: true, exit_code: a0 as i32, ..pre })
        &&& ram_post == ram
        &&& brk_post == brk
    } else if is_write(n) {
        r is Ok && post == pre.with_reg(10, a2) && ram_post == ram && brk_post == brk
    } else if is_read(n) {
        let k = read_count(input.len() as int, a2);
        &&& r is Ok
        &&& post == pre.with_reg(10, k as u32)
        &&& ram_post == ram_store_bytes(ram, a1, input.subrange(0, k))
        &&& brk_post == brk
    } else if is_brk(n) {
        let b = if a0 != 0 && brk_ok {
            a0
        } else {
            brk
        };
        r is Ok && post == pre.with_reg(10, b) && ram_post == ram && brk_post == b
    } else if is_noop(n) {
        r is Ok && post == pre.with_reg(10, 0) && ram_post == ram && brk_post == brk
    } else {
        &&& r == Err::<(), UnknownSyscall>(
            UnknownSyscall { sys_num: n, a0, a1, a2, a3: pre.reg(13) },
        )
        &&& post == pre
        &&& ram_post == ram
        &&& brk_post == brk
    }
}

/// `bytes` is what a guest `write` of `len` bytes from `addr` hands to the
/// console: what memory `ram` holds there (a device register reads as
/// whatever the device answers), without trailing zero bytes.
pub open spec fn written_bytes(ram: Map<u32, u8>, addr: u32, len: u32, bytes: Seq<u8>) -> bool {
    exists|read: Seq<u8>|
        {
            &&& read.len() == io_count(len)
            &&& forall|i: int|
                0 <= i < read.len() && ram.contains_key(#[trigger] addr_add(addr, i)) ==> read[i]
                    == ram[addr_add(addr, i)]
            &&& bytes == trim_zeros(read)
        }
}

/// What system call `pre.reg(17)` hands to the console after the host
/// answered `answer`: for a `write` to file descriptor 1 or 2 that the host
/// left to the simulator, that descriptor and the bytes written; else nothing.
pub open spec fn ecall_output(pre: CpuView, ram: Map<u32, u8>, answer: i32, out: Option<(u32, Seq<u8>)>) -> bool {
    let fd = pre.reg(10);
    if answer == 0 && is_write(pre.reg(17)) && (fd == 1 || fd == 2) {
        out is Some && out.unwrap().0 == fd && written_bytes(ram, pre.reg(11), pre.reg(12), out.unwrap().1)
    } else {
        out is None
    }
}

/// The bytes a guest `write` of `len` bytes from `addr` hands to the console:
/// what memory holds there, without trailing zero bytes.
pub fn syscall_output<M: MemoryOps>(mem: &mut M, addr: u32, len: u32) -> (r: Vec<u8>)
    requires
        old(mem).inv(),
    ensures
        read_keeps(&*final(mem), &*old(mem)),
        in_ram(old(mem).ram(), addr, io_count(len) as int) ==> final(mem).mmio_reads() == old(
            mem,
        ).mmio_reads(),
        exists|read: Seq<u8>|
            {
                &&& read.len() == io_count(len)
                &&& forall|i: int|
                    0 <= i < read.len() && old(mem).ram().contains_key(#[trigger] addr_add(addr, i))
                        ==> read[i] == old(mem).ram()[addr_add(addr, i)]
                &&& r@ == trim_zeros(read)
            },
{
    let count: usize = if (len as usize) < MAX_IO_BYTES {
        len as usize
    } else {
        MAX_IO_BYTES
    };
    let mut bytes = mem.read_bytes(addr, count);
    let ghost read = bytes@;
    while bytes.len() > 0 && bytes[bytes.len() - 1] == 0
        invariant
            trim_zeros(bytes@) == trim_zeros(read),
        decreases bytes@.len(),
    {
        proof {
            assert(bytes@.drop_last() =~= bytes@.subrange(0, bytes@.len() - 1));
        }
        bytes.pop();
    }
    bytes
}

/// The requests system call `pre.reg(17)` makes of the host, which answered
/// `answer`, when `out` is what it writes to the console: the call is offered
/// to the host; a `read` the host left to the simulator asks for standard
/// input; a `write` to the console hands over its bytes.
pub open spec fn ecall_requests(pre: CpuView, answer: i32, out: Option<(u32, Seq<u8>)>) -> Seq<HostRequest> {
    let n = pre.reg(17);
    let offer = seq![
        HostRequest::CustomSyscall(
            pre.reg(10) as i32,
            pre.reg(11) as i32,
            pre.reg(12) as i32,
            pre.reg(13) as i32,
            n as i32,
        ),
    ];
    let read = if answer == 0 && is_read(n) {
        seq![HostRequest::ReadStdin(io_count(pre.reg(12)) as u32)]
    } else {
        Seq::empty()
    };
    let write = match out {
        Some(o) => if o.0 == 1 {
            seq![HostRequest::WriteStdout(o.1)]
        } else {
            seq![HostRequest::WriteStderr(o.1)]
        },
        None => Seq::empty(),
    };
    offer + read + write
}

/// What an environment call does: `pre`, `ram` and `brk` before it,
/// `post`, `ram_post` and `brk_post` after it, `r` its result; `has_host`
/// says whether a host is attached, which is offered the call first. The
/// host's answer and the input it hands over are whatever it gives; without
/// a host the answer is 0 and there is no input.
pub open spec fn ecall_effect(
    pre: CpuView,
    ram: Map<u32, u8>,
    brk: u32,
    has_host: bool,
    post: CpuView,
    ram_post: Map<u32, u8>,
    brk_post: u32,
    r: Result<(), UnknownSyscall>,
) -> bool {
    exists|answer: i32, input: Seq<u8>, brk_ok: bool|
        #![trigger ecall_outcome(pre, ram, brk, answer, input, brk_ok, post, ram_post, brk_post, r)]
        {
            &&& !has_host ==> answer == 0 && input.len() == 0
            &&& ecall_outcome(pre, ram, brk, answer, input, brk_ok, post, ram_post, brk_post, r)
        }
}

/// Carry out system call `cpu.reg(17)` once the host has answered `answer`
/// (0: not handled) and, for a `read`, handed over the standard-input bytes
/// `input`. Returns the result and, for a `write` to the console, the file
/// descriptor and the bytes to hand to it.
pub fn finish_ecall<M: MemoryOps>(cpu: &mut Cpu, mem: &mut M, answer: i32, input: &[u8]) -> (r: (
    Result<(), UnknownSyscall>,
    Option<(u32, Vec<u8>)>,
))
    requires
        old(mem).inv(),
    ensures
        final(mem).inv(),
        final(cpu).same_attachments(old(cpu)),
        final(cpu).same_requests(old(cpu)),
        ecall_outcome(
            old(cpu)@,
            old(mem).ram(),
            old(mem).brk(),
            answer,
            input@,
            old(mem).brk_accepts(old(cpu)@.reg(10)),
            final(cpu)@,
            final(mem).ram(),
            final(mem).brk(),
            r.0,
        ),
        ecall_output(
            old(cpu)@,
            old(mem).ram(),
            answer,
            match r.1 {
                Some(o) => Some((o.0, o.1@)),
                None => None,
            },
        ),
{
    let ghost pre = cpu@;
    let a7 = cpu.read_reg(A7);
    let a0 = cpu.read_reg(A0);
    let a1 = cpu.read_reg(A1);
    let a2 = cpu.read_reg(A2);
    let a3 = cpu.read_reg(A3);
    if answer != 0 {
        cpu.write_reg(A0, answer as u32);
        return (Ok(()), None);
    }
    if a7 == 93 || a7 == 10 || a7 == 1 {
        // SYS_exit
        cpu.is_halted = true;
        cpu.exit_code = a0 as i32;
        (Ok(()), None)
    } else if a7 == 64 || a7 == 4 {
        // SYS_write
        let out = if a0 == 1 || a0 == 2 {
            Some((a0, syscall_output(mem, a1, a2)))
        } else {
            None
        };
        cpu.write_reg(A0, a2);  // Return number of bytes written
        (Ok(()), out)
    } else if a7 == 63 || a7 == 3 {
        // SYS_read
        let count: usize = if (a2 as usize) < MAX_IO_BYTES {
            a2 as usize
        } else {
            MAX_IO_BYTES
        };
        let bytes_read: usize = if input.len() < count {
            input.len()
        } else {
            count
        };
        let chunk = &input[0..bytes_read];
        proof {
            assert(bytes_read as int == read_count(input@.len() as int, a2));
        }
        if bytes_read > 0 {
            mem.write_bytes(a1, chunk);
        } else {
            proof {
                assert(ram_store_bytes(mem.ram(), a1, chunk@) =~= mem.ram());
            }
        }
        cpu.write_reg(A0, bytes_read as u32);
        (Ok(()), None)
    } else if a7 == 214 || a7 == 45 {
        // SYS_brk
        if a0 != 0 {
            mem.set_brk(a0);
        }
        let brk = mem.get_brk();
        cpu.write_reg(A0, brk);
        (Ok(()), None)
    } else if a7 == 57 || a7 == 62 || a7 == 80 {
        // SYS_close (57), SYS_lseek (62), SYS_fstat (80)
        cpu.write_reg(A0, 0);
        (Ok(()), None)
    } else {
        (Err(UnknownSyscall { sys_num: a7, a0, a1, a2, a3 }), None)
    }
}

/// Handle an environment call: the host is offered it first, then the
/// simulator runs it itself, and a `write` to file descriptor 1 or 2 goes to
/// the host's console.
pub fn handle_ecall<M: MemoryOps>(cpu: &mut Cpu, mem: &mut M) -> (r: Result<(), UnknownSyscall>)
    requires
        old(mem).inv(),
    ensures
        final(mem).inv(),
        final(cpu).same_attachments(old(cpu)),
        final(cpu)@.pc == old(cpu)@.pc,
        ecall_effect(
            old(cpu)@,
            old(mem).ram(),
            old(mem).brk(),
            old(cpu).host is Some,
            final(cpu)@,
            final(mem).ram(),
            final(mem).brk(),
            r,
        ),
        old(cpu).host is None ==> ecall_outcome(
            old(cpu)@,
            old(mem).ram(),
            old(mem).brk(),
            0,
            Seq::empty(),
            old(mem).brk_accepts(old(cpu)@.reg(10)),
            final(cpu)@,
            final(mem).ram(),
            final(mem).brk(),
            r,
        ),
        final(cpu).fpu_requests@ == old(cpu).fpu_requests@,
        old(cpu).host is None ==> final(cpu).host_requests@ == old(cpu).host_requests@,
        old(cpu).host is Some ==> exists|answer: i32, input: Seq<u8>, out: Option<(u32, Seq<u8>)>|
            #![trigger ecall_outcome(old(cpu)@, old(mem).ram(), old(mem).brk(), answer, input, old(mem).brk_accepts(old(cpu)@.reg(10)), final(cpu)@, final(mem).ram(), final(mem).brk(), r), ecall_output(old(cpu)@, old(mem).ram(), answer, out)]
            {
                &&& ecall_outcome(
                    old(cpu)@,
                    old(mem).ram(),
                    old(mem).brk(),
                    answer,
                    input,
                    old(mem).brk_accepts(old(cpu)@.reg(10)),
                    final(cpu)@,
                    final(mem).ram(),
                    final(mem).brk(),
                    r,
                )
                &&& ecall_output(old(cpu)@, old(mem).ram(), answer, out)
                &&& final(cpu).host_requests@ == old(cpu).host_requests@ + ecall_requests(
                    old(cpu)@,
                    answer,
                    out,
                )
            },
{
    let ghost pre = cpu@;
    let ghost log = cpu.host_requests@;
    let ghost ram = mem.ram();
    let ghost brk = mem.brk();
    let ghost brk_ok = mem.brk_accepts(cpu@.reg(10));
    let a7 = cpu.read_reg(A7);
    let a0 = cpu.read_reg(A0);
    let a1 = cpu.read_reg(A1);
    let a2 = cpu.read_reg(A2);
    let a3 = cpu.read_reg(A3);
    // The host is offered the call first.
    let answer = cpu.host_custom_syscall(a0 as i32, a1 as i32, a2 as i32, a3 as i32, a7 as i32);
    let count: usize = if (a2 as usize) < MAX_IO_BYTES {
        a2 as usize
    } else {
        MAX_IO_BYTES
    };
    let input: Vec<u8> = if answer == 0 && (a7 == 63 || a7 == 3) {
        cpu.host_read_stdin(count as u32)
    } else {
        Vec::new()
    };
    let (r, out) = finish_ecall(cpu, mem, answer, input.as_slice());
    let ghost out_v = match &out {
        Some(o) => Some((o.0, o.1@)),
        None => None,
    };
    match out {
        Some((fd, bytes)) => {
            if fd == 1 {
                cpu.host_write_stdout(bytes.as_slice());
            } else {
                cpu.host_write_stderr(bytes.as_slice());
            }
        },
        None => {},
    }
    proof {
        if !(pre.reg(17) == 63 || pre.reg(17) == 3) || cpu.host is None {
            assert(input@ =~= Seq::<u8>::empty());
        }
        assert(ecall_outcome(pre, ram, brk, answer, input@, brk_ok, cpu@, mem.ram(), mem.brk(), r));
        assert(ecall_output(pre, ram, answer, out_v));
        assert(cpu.host is Some ==> cpu.host_requests@ =~= log + ecall_requests(pre, answer, out_v));
    }
    r
}

} // verus!

verus! {

/// A `write` system call (number 64) that the host left to the simulator
/// goes to the console stream its file descriptor names: to descriptor 2,
/// one request to standard error with the bytes written and none to
/// standard output; to descriptor 1, the other way round. The request is the
/// last one the call makes.
pub proof fn law_write_goes_to_its_stream(pre: CpuView, ram: Map<u32, u8>, out: Option<(u32, Seq<u8>)>)
    requires
        pre.reg(17) == 64,
        pre.reg(10) == 1 || pre.reg(10) == 2,
        ecall_output(pre, ram, 0, out),
    ensures
        out is Some,
        out.unwrap().0 == pre.reg(10),
        ({
            let reqs = ecall_requests(pre, 0, out);
            let bytes = out.unwrap().1;
            &&& pre.reg(10) == 2 ==> reqs.last() == HostRequest::WriteStderr(bytes)
            &&& pre.reg(10) == 1 ==> reqs.last() == HostRequest::WriteStdout(bytes)
            &&& forall|i: int|
                0 <= i < reqs.len() ==> (pre.reg(10) == 2 ==> !(#[trigger] reqs[i] is WriteStdout))
                    && (pre.reg(10) == 1 ==> !(reqs[i] is WriteStderr))
        }),
{
    let reqs = ecall_requests(pre, 0, out);
    assert(!is_read(64));
    assert forall|i: int| 0 <= i < reqs.len() implies (pre.reg(10) == 2 ==> !(#[trigger] reqs[i] is WriteStdout))
        && (pre.reg(10) == 1 ==> !(reqs[i] is WriteStderr)) by {
        if i == 0 {
        } else {
            assert(i == 1);
        }
    }
}

} // verus!

verus! {

/// Every environment call first offers itself to the host, with a0, a1, a2,
/// a3 and the call number a7 in that order; a `read` (number 63) that the
/// host left to the simulator then asks for a2 bytes of standard input, at
/// most 16 MiB.
pub proof fn law_ecall_offer_and_read(pre: CpuView, answer: i32, out: Option<(u32, Seq<u8>)>)
    ensures
        ecall_requests(pre, answer, out).len() >= 1,
        ecall_requests(pre, answer, out)[0] == HostRequest::CustomSyscall(
            pre.reg(10) as i32,
            pre.reg(11) as i32,
            pre.reg(12) as i32,
            pre.reg(13) as i32,
            pre.reg(17) as i32,
        ),
        pre.reg(17) == 63 && answer == 0 ==> ecall_requests(pre, answer, out)[1]
            == HostRequest::ReadStdin(
            (if pre.reg(12) < 0x100_0000 {
                pre.reg(12)
            } else {
                0x100_0000
            }),
        ),
        answer != 0 ==> forall|i: int|
            0 <= i < ecall_requests(pre, answer, out).len() ==> !(#[trigger] ecall_requests(
                pre,
                answer,
                out,
            )[i] is ReadStdin),
{
    let reqs = ecall_requests(pre, answer, out);
    assert(reqs[0] == HostRequest::CustomSyscall(
        pre.reg(10) as i32,
        pre.reg(11) as i32,
        pre.reg(12) as i32,
        pre.reg(13) as i32,
        pre.reg(17) as i32,
    ));
}

} // verus!
