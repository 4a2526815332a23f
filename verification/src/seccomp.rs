//! The seccomp allowlist as a classic BPF program: check the
//! architecture, then allow exactly the listed system calls.
use vstd::prelude::*;
use crate::error::ServeError;

verus! {

/// One classic BPF instruction (`struct sock_filter`).
#[derive(Clone, Copy, Debug, PartialEq, Eq, Structural)]
pub struct SockFilter {
    pub code: u16,
    pub jt: u8,
    pub jf: u8,
    pub k: u32,
}

/// Instruction classes and fields of classic BPF.
pub const BPF_LD: u32 = 0x00;
pub const BPF_W: u32 = 0x00;
pub const BPF_ABS: u32 = 0x20;
pub const BPF_JMP: u32 = 0x05;
pub const BPF_JEQ: u32 = 0x10;
pub const BPF_K: u32 = 0x00;
pub const BPF_RET: u32 = 0x06;
/// Filter verdicts.
pub const SECCOMP_RET_KILL_THREAD: u32 = 0x0000_0000;
pub const SECCOMP_RET_ALLOW: u32 = 0x7fff_0000;
/// The x86-64 audit architecture.
pub const AUDIT_ARCH_X86_64: u32 = 0xc000_003e;
/// Offsets in `struct seccomp_data`.
pub const OFF_NR: u32 = 0;
pub const OFF_ARCH: u32 = 4;

pub open spec fn stmt(code: u32, k: u32) -> SockFilter {
    SockFilter { code: code as u16, jt: 0, jf: 0, k }
}

pub open spec fn jump(code: u32, k: u32, jt: u8, jf: u8) -> SockFilter {
    SockFilter { code: code as u16, jt, jf, k }
}

pub fn bpf_stmt(code: u32, k: u32) -> (r: SockFilter)
    ensures
        r == stmt(code, k),
{
    SockFilter { code: code as u16, jt: 0, jf: 0, k }
}

pub fn bpf_jump(code: u32, k: u32, jt: u8, jf: u8) -> (r: SockFilter)
    ensures
        r == jump(code, k, jt, jf),
{
    SockFilter { code: code as u16, jt, jf, k }
}

pub open spec fn ld_abs(off: u32) -> SockFilter {
    stmt(BPF_LD | BPF_W | BPF_ABS, off)
}

pub open spec fn ret(v: u32) -> SockFilter {
    stmt(BPF_RET | BPF_K, v)
}

pub open spec fn jeq(k: u32, jt: u8, jf: u8) -> SockFilter {
    jump(BPF_JMP | BPF_JEQ | BPF_K, k, jt, jf)
}

/// The filter: load the architecture, kill on a foreign one, load the
/// call number, then for each listed call allow on a match, and kill
/// when none matched.
pub open spec fn filter_spec(allow: Seq<i64>) -> Seq<SockFilter> {
    seq![ld_abs(OFF_ARCH), jeq(AUDIT_ARCH_X86_64, 1, 0), ret(SECCOMP_RET_KILL_THREAD), ld_abs(OFF_NR)]
        + allow_pairs(allow) + seq![ret(SECCOMP_RET_KILL_THREAD)]
}

pub open spec fn allow_pairs(allow: Seq<i64>) -> Seq<SockFilter>
    decreases allow.len(),
{
    if allow.len() == 0 {
        Seq::empty()
    } else {
        seq![jeq(allow[0] as u32, 0, 1), ret(SECCOMP_RET_ALLOW)] + allow_pairs(allow.drop_first())
    }
}

/// Runs a classic BPF program over a call (its number and architecture)
/// from instruction `pc`, the accumulator holding `acc`: loads of the
/// number or architecture, equality jumps and returns; jumps go forward
/// only. `None` when the program falls off its end or holds another
/// instruction.
pub open spec fn bpf_run(prog: Seq<SockFilter>, pc: int, acc: u32, nr: u32, arch: u32) -> Option<u32>
    decreases prog.len() - pc,
{
    if pc < 0 || pc >= prog.len() {
        None
    } else {
        let ins = prog[pc];
        if ins.code == 0x20 {
            if ins.k == OFF_NR {
                bpf_run(prog, pc + 1, nr, nr, arch)
            } else if ins.k == OFF_ARCH {
                bpf_run(prog, pc + 1, arch, nr, arch)
            } else {
                None
            }
        } else if ins.code == 0x15 {
            let next = if acc == ins.k { pc + 1 + ins.jt } else { pc + 1 + ins.jf };
            if next > prog.len() {
                None
            } else {
                bpf_run(prog, next, acc, nr, arch)
            }
        } else if ins.code == 0x06 {
            Some(ins.k)
        } else {
            None
        }
    }
}

pub fn seccomp_filter_prog(allow: &[i64]) -> (r: Vec<SockFilter>)
    requires
        allow.len() < 0x1000_0000,
    ensures
        r@ == filter_spec(allow@),
{
    let mut f: Vec<SockFilter> = Vec::new();
    f.push(bpf_stmt(BPF_LD | BPF_W | BPF_ABS, OFF_ARCH));
    f.push(bpf_jump(BPF_JMP | BPF_JEQ | BPF_K, AUDIT_ARCH_X86_64, 1, 0));
    f.push(bpf_stmt(BPF_RET | BPF_K, SECCOMP_RET_KILL_THREAD));
    f.push(bpf_stmt(BPF_LD | BPF_W | BPF_ABS, OFF_NR));
    let ghost head = f@;
    let mut i: usize = 0;
    while i < allow.len()
        invariant
            i <= allow.len(),
            f@ == head + allow_pairs(allow@.take(i as int)),
        decreases allow.len() - i,
    {
        let nr = allow[i];
        f.push(bpf_jump(BPF_JMP | BPF_JEQ | BPF_K, nr as u32, 0, 1));
        f.push(bpf_stmt(BPF_RET | BPF_K, SECCOMP_RET_ALLOW));
        proof {
            lemma_pairs_push(allow@.take(i as int), nr);
            assert(allow@.take(i + 1) =~= allow@.take(i as int).push(nr));
        }
        i = i + 1;
    }
    f.push(bpf_stmt(BPF_RET | BPF_K, SECCOMP_RET_KILL_THREAD));
    assert(allow@.take(allow.len() as int) =~= allow@);
    f
}

proof fn lemma_pairs_push(a: Seq<i64>, x: i64)
    ensures
        allow_pairs(a.push(x)) == allow_pairs(a) + seq![jeq(x as u32, 0, 1), ret(SECCOMP_RET_ALLOW)],
    decreases a.len(),
{
    if a.len() == 0 {
        assert(a.push(x).drop_first() =~= Seq::<i64>::empty());
        assert(allow_pairs(Seq::<i64>::empty()) =~= Seq::<SockFilter>::empty());
        assert(allow_pairs(a.push(x)) =~= seq![jeq(x as u32, 0, 1), ret(SECCOMP_RET_ALLOW)]);
    } else {
        assert(a.push(x).drop_first() =~= a.drop_first().push(x));
        lemma_pairs_push(a.drop_first(), x);
        assert(allow_pairs(a.push(x)) =~= allow_pairs(a) + seq![jeq(x as u32, 0, 1), ret(SECCOMP_RET_ALLOW)]);
    }
}

proof fn lemma_pairs_len(a: Seq<i64>)
    ensures
        allow_pairs(a).len() == 2 * a.len(),
    decreases a.len(),
{
    if a.len() > 0 {
        lemma_pairs_len(a.drop_first());
    }
}

/// The call numbers as the filter compares them.
pub open spec fn allowed_nrs(allow: Seq<i64>) -> Seq<u32> {
    allow.map_values(|x: i64| x as u32)
}

proof fn lemma_scan(allow: Seq<i64>, j: int, nr: u32, arch: u32)
    requires
        0 <= j <= allow.len(),
    ensures
        bpf_run(filter_spec(allow), 4 + 2 * j, nr, nr, arch) == Some(
            if allowed_nrs(allow.skip(j)).contains(nr) { SECCOMP_RET_ALLOW } else { SECCOMP_RET_KILL_THREAD },
        ),
    decreases allow.len() - j,
{
    let p = filter_spec(allow);
    lemma_pairs_len(allow);
    let pc = 4 + 2 * j;
    if j == allow.len() {
        assert(p[pc] == ret(SECCOMP_RET_KILL_THREAD));
        assert(ret(SECCOMP_RET_KILL_THREAD).code == 0x06) by (bit_vector);
        assert(allowed_nrs(allow.skip(j)) =~= Seq::<u32>::empty());
        assert(bpf_run(p, pc, nr, nr, arch) == Some(SECCOMP_RET_KILL_THREAD));
    } else {
        lemma_pairs_at(allow, j);
        assert(jeq(allow[j] as u32, 0, 1).code == 0x15) by (bit_vector);
        assert(ret(SECCOMP_RET_ALLOW).code == 0x06) by (bit_vector);
        lemma_scan(allow, j + 1, nr, arch);
        assert(p[pc] == jeq(allow[j] as u32, 0, 1));
        assert(p[pc + 1] == ret(SECCOMP_RET_ALLOW));
        assert(pc + 2 <= p.len());
        if nr == allow[j] as u32 {
            assert(bpf_run(p, pc + 1, nr, nr, arch) == Some(SECCOMP_RET_ALLOW));
            assert(bpf_run(p, pc, nr, nr, arch) == bpf_run(p, pc + 1, nr, nr, arch));
        } else {
            assert(bpf_run(p, pc, nr, nr, arch) == bpf_run(p, pc + 2, nr, nr, arch));
            assert(pc + 2 == 4 + 2 * (j + 1));
        }
        let rest = allowed_nrs(allow.skip(j));
        assert(rest =~= seq![allow[j] as u32] + allowed_nrs(allow.skip(j + 1)));
        if nr == allow[j] as u32 {
            assert(rest[0] == nr);
        } else {
            if rest.contains(nr) {
                let w = choose|w: int| 0 <= w < rest.len() && #[trigger] rest[w] == nr;
                assert(allowed_nrs(allow.skip(j + 1))[w - 1] == nr);
            }
            let tail = allowed_nrs(allow.skip(j + 1));
            if tail.contains(nr) {
                let w = choose|w: int| 0 <= w < tail.len() && #[trigger] tail[w] == nr;
                assert(rest[w + 1] == nr);
            }
        }
    }
}

proof fn lemma_pairs_at(allow: Seq<i64>, j: int)
    requires
        0 <= j < allow.len(),
    ensures
        allow_pairs(allow)[2 * j] == jeq(allow[j] as u32, 0, 1),
        allow_pairs(allow)[2 * j + 1] == ret(SECCOMP_RET_ALLOW),
        filter_spec(allow)[4 + 2 * j] == jeq(allow[j] as u32, 0, 1),
        filter_spec(allow)[4 + 2 * j + 1] == ret(SECCOMP_RET_ALLOW),
    decreases j,
{
    lemma_pairs_len(allow);
    if j > 0 {
        lemma_pairs_at(allow.drop_first(), j - 1);
        lemma_pairs_len(allow.drop_first());
    }
}

/// Law: the installed filter allows a call exactly when the architecture
/// is x86-64 and the call's number is on the list; every other call
/// kills the thread. The program never runs off its end.
pub proof fn law_filter_allows_exactly_the_list(allow: Seq<i64>, nr: u32, arch: u32)
    ensures
        bpf_run(filter_spec(allow), 0, 0, nr, arch) == Some(
            if arch == AUDIT_ARCH_X86_64 && allowed_nrs(allow).contains(nr) {
                SECCOMP_RET_ALLOW
            } else {
                SECCOMP_RET_KILL_THREAD
            },
        ),
{
    let p = filter_spec(allow);
    lemma_pairs_len(allow);
    assert(ld_abs(OFF_ARCH).code == 0x20 && ld_abs(OFF_NR).code == 0x20) by (bit_vector);
    assert(jeq(AUDIT_ARCH_X86_64, 1, 0).code == 0x15) by (bit_vector);
    assert(ret(SECCOMP_RET_KILL_THREAD).code == 0x06) by (bit_vector);
    assert(p[0] == ld_abs(OFF_ARCH));
    assert(p[1] == jeq(AUDIT_ARCH_X86_64, 1, 0));
    assert(p[2] == ret(SECCOMP_RET_KILL_THREAD));
    assert(p[3] == ld_abs(OFF_NR));
    lemma_scan(allow, 0, nr, arch);
    assert(allow.skip(0) =~= allow);
    assert(bpf_run(p, 0, 0, nr, arch) == bpf_run(p, 1, arch, nr, arch));
    if arch == AUDIT_ARCH_X86_64 {
        assert(bpf_run(p, 1, arch, nr, arch) == bpf_run(p, 3, arch, nr, arch));
        assert(bpf_run(p, 3, arch, nr, arch) == bpf_run(p, 4, nr, nr, arch));
    } else {
        assert(bpf_run(p, 1, arch, nr, arch) == bpf_run(p, 2, arch, nr, arch));
        assert(bpf_run(p, 2, arch, nr, arch) == Some(SECCOMP_RET_KILL_THREAD));
    }
}

/// The allowlist may not hold `execve`.
pub fn check_allowlist(allow: &[i64], execve: i64) -> (r: Result<(), ServeError>)
    ensures
        allow@.contains(execve) ==> (r matches Err(ServeError::Config(m)) && m@ == "seccomp allowlist contains execve"@),
        !allow@.contains(execve) ==> r is Ok,
{
    let mut i: usize = 0;
    while i < allow.len()
        invariant
            i <= allow.len(),
            forall|k: int| 0 <= k < i ==> allow@[k] != execve,
        decreases allow.len() - i,
    {
        if allow[i] == execve {
            return Err(ServeError::Config("seccomp allowlist contains execve".to_string()));
        }
        i = i + 1;
    }
    Ok(())
}

} // verus!
