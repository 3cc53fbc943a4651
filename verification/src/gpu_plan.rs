//! The decisions of the simulated GPU runtime: which functions are
//! registered, whether a call of one is accepted, what a parallel loop
//! runs over and how its iterations are split among threads, and what a
//! GPU function returns.  Printing, sleeping and spawning threads are left
//! to the program.
use crate::ast::{Expr, ExprV, Stmt, StmtV};
use crate::text::{chars_of, push_decimal, push_str, decimal};
use vstd::arithmetic::div_mod::{lemma_fundamental_div_mod, lemma_mod_pos_bound};
use vstd::prelude::*;

verus! {

broadcast use vstd::string::group_string_axioms;

/// The number of iterations each thread takes: the count divided by the
/// number of threads, rounded up.
pub open spec fn chunk_len(n: nat, threads: nat) -> nat {
    ((n + threads - 1) / (threads as int)) as nat
}

/// The iterations of thread `i`: from `i` chunks on, up to one chunk, and
/// not past the count (a thread past the end gets an empty range).
pub open spec fn thread_range(n: nat, threads: nat, i: nat) -> (nat, nat) {
    let c = chunk_len(n, threads);
    let start = i * c;
    (start, if start + c < n { start + c } else { n })
}

/// How the iterations `0..n` of a parallel loop are split among at most
/// `threads` threads: one range per thread, for as many threads as there
/// are iterations (at most `threads`).
pub fn thread_chunks(n: usize, threads: usize) -> (chunks: Vec<(usize, usize)>)
    requires
        threads > 0,
        n + threads - 1 <= usize::MAX,
    ensures
        chunks@.len() == (if threads < n {
            threads
        } else {
            n
        }),
        forall|i: int| 0 <= i < chunks@.len() ==> (#[trigger] chunks@[i]).0 == thread_range(n as nat, threads as nat, i as nat).0
            && chunks@[i].1 == thread_range(n as nat, threads as nat, i as nat).1,
{
    let count = if threads < n {
        threads
    } else {
        n
    };
    let chunk = (n + (threads - 1)) / threads;
    proof {
        assert(chunk * threads <= n + threads - 1) by (nonlinear_arith)
            requires
                chunk == (n + threads - 1) / (threads as int),
                threads > 0,
                n + threads - 1 >= 0,
        ;
    }
    let mut chunks: Vec<(usize, usize)> = Vec::new();
    let mut i: usize = 0;
    while i < count
        invariant
            count <= threads,
            threads > 0,
            chunk == chunk_len(n as nat, threads as nat),
            chunk * threads <= n + threads - 1,
            n + threads - 1 <= usize::MAX,
            count == (if threads < n {
                threads
            } else {
                n
            }),
            i <= count,
            chunks@.len() == i,
            forall|j: int| 0 <= j < i ==> (#[trigger] chunks@[j]).0 == thread_range(n as nat, threads as nat, j as nat).0
                && chunks@[j].1 == thread_range(n as nat, threads as nat, j as nat).1,
        decreases count - i,
    {
        proof {
            assert((i + 1) * chunk <= threads * chunk) by (nonlinear_arith)
                requires
                    i + 1 <= threads,
                    chunk >= 0,
            ;
            assert(threads * chunk == chunk * threads) by (nonlinear_arith);
            assert(i * chunk + chunk == (i + 1) * chunk) by (nonlinear_arith);
            assert(i * chunk + chunk <= usize::MAX);
        }
        let start = i * chunk;
        let end = if start + chunk < n {
            start + chunk
        } else {
            n
        };
        chunks.push((start, end));
        i = i + 1;
    }
    chunks
}

/// What a parallel loop runs over.
#[derive(Debug, Clone, Copy, PartialEq, Eq, Structural)]
pub enum ParallelPlan {
    /// The iterations `0..n`, split among threads.
    Threads(i64),
    /// The iterations `start..end` (a non-empty range), one after another.
    Iterations(i64, i64),
    /// A range with nothing in it.
    Empty,
}

/// The plan for a parallel loop over a range expression, or the error it
/// is refused with: a number `n` runs `0..n` on threads; a range of two
/// number literals runs its iterations, if it has any; any other range, or
/// any other expression, is refused.
pub open spec fn parallel_plan(range: ExprV) -> Result<ParallelPlan, Seq<char>> {
    match range {
        ExprV::Number(n) => Ok(ParallelPlan::Threads(n as i64)),
        ExprV::Range { start, end } => match (*start, *end) {
            (ExprV::Number(s), ExprV::Number(e)) => if e - s <= 0 {
                Ok(ParallelPlan::Empty)
            } else {
                Ok(ParallelPlan::Iterations(s as i64, e as i64))
            },
            _ => Err("GPU parallel loop range bounds must be numeric literals"@),
        },
        _ => Err("GPU parallel loop expects numeric range"@),
    }
}

/// The text of an error, if any.
pub open spec fn plan_view(r: Result<ParallelPlan, String>) -> Result<ParallelPlan, Seq<char>> {
    match r {
        Ok(p) => Ok(p),
        Err(e) => Err(e@),
    }
}

/// Decides what a parallel loop over `range` runs.  The length of a range
/// of two number literals must fit in `i64`.
pub fn plan_parallel(range: &Expr) -> (plan: Result<ParallelPlan, String>)
    requires
        range@ matches ExprV::Range { start, end } && *start matches ExprV::Number(s) && *end matches ExprV::Number(e)
            ==> i64::MIN <= e - s <= i64::MAX,
    ensures
        plan_view(plan) == parallel_plan(range@),
{
    match range {
        Expr::Number(n) => {
            assert(range@ == ExprV::Number(*n as int));
            Ok(ParallelPlan::Threads(*n))
        },
        Expr::Range { start, end } => match (&**start, &**end) {
            (Expr::Number(s), Expr::Number(e)) => {
                assert(start@ == ExprV::Number(*s as int));
                assert(end@ == ExprV::Number(*e as int));
                let size = *e - *s;
                if size <= 0 {
                    Ok(ParallelPlan::Empty)
                } else {
                    Ok(ParallelPlan::Iterations(*s, *e))
                }
            },
            _ => Err("GPU parallel loop range bounds must be numeric literals".to_owned()),
        },
        _ => Err("GPU parallel loop expects numeric range".to_owned()),
    }
}

/// The functions registered for the GPU: names (no two alike), parameters
/// with their types, and bodies; a name registered again replaces the
/// earlier one.
#[derive(Debug)]
pub struct GpuRegistry {
    entries: Vec<(String, Vec<(String, String)>, Stmt)>,
}

/// The parameters of a function, as text.
pub open spec fn typed_params_view(ps: Seq<(String, String)>) -> Seq<(Seq<char>, Seq<char>)> {
    ps.map_values(|p: (String, String)| (p.0@, p.1@))
}

impl GpuRegistry {
    /// The registered functions by name.
    pub closed spec fn functions(&self) -> Map<Seq<char>, (Seq<(Seq<char>, Seq<char>)>, StmtV)> {
        Map::new(
            |k: Seq<char>| exists|i: int| 0 <= i < self.entries@.len() && #[trigger] self.entries@[i].0@ == k,
            |k: Seq<char>| {
                let i = choose|i: int| 0 <= i < self.entries@.len() && #[trigger] self.entries@[i].0@ == k;
                (typed_params_view(self.entries@[i].1@), self.entries@[i].2@)
            },
        )
    }

    /// No name is registered twice.
    pub closed spec fn wf(&self) -> bool {
        forall|i: int, j: int|
            0 <= i < self.entries@.len() && 0 <= j < self.entries@.len() && #[trigger] self.entries@[i].0@
                == #[trigger] self.entries@[j].0@ ==> i == j
    }

    pub fn new() -> (r: Self)
        ensures
            r.wf(),
            r.functions() == Map::<Seq<char>, (Seq<(Seq<char>, Seq<char>)>, StmtV)>::empty(),
    {
        let r = GpuRegistry { entries: Vec::new() };
        assert(r.functions() =~= Map::<Seq<char>, (Seq<(Seq<char>, Seq<char>)>, StmtV)>::empty());
        r
    }

    /// The position of the function named `name`, if it is registered.
    fn find(&self, name: &String) -> (r: Option<usize>)
        requires
            self.wf(),
        ensures
            match r {
                Some(i) => i < self.entries@.len() && self.entries@[i as int].0@ == name@,
                None => forall|i: int| 0 <= i < self.entries@.len() ==> #[trigger] self.entries@[i].0@ != name@,
            },
    {
        let mut i: usize = 0;
        while i < self.entries.len()
            invariant
                i <= self.entries@.len(),
                forall|j: int| 0 <= j < i ==> #[trigger] self.entries@[j].0@ != name@,
            decreases self.entries@.len() - i,
        {
            if self.entries[i].0 == *name {
                return Some(i);
            }
            i = i + 1;
        }
        None
    }

    /// Registers a function under `name`, replacing any function registered
    /// under it before.
    pub fn register_function(&mut self, name: String, params: Vec<(String, String)>, body: &Stmt)
        requires
            old(self).wf(),
        ensures
            final(self).wf(),
            final(self).functions() == old(self).functions().insert(
                name@,
                (typed_params_view(params@), body@),
            ),
    {
        let ghost before = self.entries@;
        let entry = (name, params, body.clone());
        let ghost k = entry.0@;
        let ghost v = (typed_params_view(entry.1@), entry.2@);
        let ghost pos: int;
        match self.find(&entry.0) {
            Some(i) => {
                self.entries.set(i, entry);
                proof {
                    pos = i as int;
                }
            },
            None => {
                self.entries.push(entry);
                proof {
                    pos = before.len() as int;
                }
            },
        }
        proof {
            assert(0 <= pos < self.entries@.len() && self.entries@[pos].0@ == k);
            assert(forall|j: int| 0 <= j < self.entries@.len() && j != pos ==> #[trigger] self.entries@[j] == before[j]);
            assert(self.wf());
            assert forall|key: Seq<char>| #[trigger] self.functions().contains_key(key)
                <==> old(self).functions().insert(k, v).contains_key(key) by {
                if old(self).functions().contains_key(key) && key != k {
                    let j = choose|j: int| 0 <= j < before.len() && #[trigger] before[j].0@ == key;
                    assert(j != pos);
                    assert(self.entries@[j] == before[j]);
                }
                if key == k {
                    assert(self.entries@[pos].0@ == key);
                }
                if self.functions().contains_key(key) && key != k {
                    let j = choose|j: int| 0 <= j < self.entries@.len() && #[trigger] self.entries@[j].0@ == key;
                    assert(j != pos);
                    assert(before[j].0@ == key);
                }
            }
            assert forall|key: Seq<char>| #[trigger] self.functions().contains_key(key) implies self.functions()[key]
                == old(self).functions().insert(k, v)[key] by {
                let j = choose|j: int| 0 <= j < self.entries@.len() && #[trigger] self.entries@[j].0@ == key;
                if key != k {
                    assert(j != pos);
                    assert(before[j] == self.entries@[j]);
                    let j0 = choose|j0: int| 0 <= j0 < before.len() && #[trigger] before[j0].0@ == key;
                    assert(j0 == j);
                } else {
                    assert(j == pos);
                }
            }
            assert(self.functions() =~= old(self).functions().insert(k, v));
        }
    }

    /// Whether a function is registered under `name`.
    pub fn contains(&self, name: &str) -> (r: bool)
        requires
            self.wf(),
        ensures
            r == self.functions().contains_key(name@),
    {
        let key = name.to_owned();
        match self.find(&key) {
            Some(i) => {
                assert(self.functions().contains_key(name@));
                true
            },
            None => false,
        }
    }

    /// Whether a call of `name` with `args` arguments is accepted: the
    /// function must be registered and take that many parameters.
    pub fn check_call(&self, name: &str, args: usize) -> (r: Result<(), String>)
        requires
            self.wf(),
        ensures
            match r {
                Ok(()) => self.functions().contains_key(name@) && self.functions()[name@].0.len() == args,
                Err(e) => if !self.functions().contains_key(name@) {
                    e@ == "GPU function '"@ + name@ + "' not found"@
                } else {
                    self.functions()[name@].0.len() != args && e@ == "GPU function '"@ + name@ + "' expects "@
                        + decimal(self.functions()[name@].0.len()) + " arguments, but got "@ + decimal(args as nat)
                },
            },
    {
        let key = name.to_owned();
        match self.find(&key) {
            None => {
                assert(!self.functions().contains_key(name@));
                let mut e = String::new();
                push_str(&mut e, "GPU function '");
                push_str(&mut e, name);
                push_str(&mut e, "' not found");
                Err(e)
            },
            Some(i) => {
                proof {
                    assert(self.functions().contains_key(name@));
                    let j = choose|j: int| 0 <= j < self.entries@.len() && #[trigger] self.entries@[j].0@ == name@;
                    assert(j == i);
                }
                let count = self.entries[i].1.len();
                if count == args {
                    Ok(())
                } else {
                    let mut e = String::new();
                    push_str(&mut e, "GPU function '");
                    push_str(&mut e, name);
                    push_str(&mut e, "' expects ");
                    push_decimal(&mut e, count as u64);
                    push_str(&mut e, " arguments, but got ");
                    push_decimal(&mut e, args as u64);
                    Err(e)
                }
            },
        }
    }
}

/// What a GPU function returns, given its first two arguments when both
/// are integers: `add_gpu` adds them (42 without them), `gpu_multiply`
/// multiplies them (nothing without them); any other function returns
/// nothing (`None`).
pub open spec fn gpu_result(name: Seq<char>, numbers: Option<(i64, i64)>) -> Option<i64> {
    if name == seq!['a', 'd', 'd', '_', 'g', 'p', 'u'] {
        match numbers {
            Some((a, b)) => Some((a + b) as i64),
            None => Some(42),
        }
    } else if name == seq!['g', 'p', 'u', '_', 'm', 'u', 'l', 't', 'i', 'p', 'l', 'y'] {
        match numbers {
            Some((a, b)) => Some((a * b) as i64),
            None => None,
        }
    } else {
        None
    }
}

/// Whether `chars` is exactly `kw`.
fn chars_are(chars: &Vec<char>, kw: &[char]) -> (r: bool)
    ensures
        r == (chars@ == kw@),
{
    if chars.len() != kw.len() {
        return false;
    }
    let mut i: usize = 0;
    while i < kw.len()
        invariant
            chars@.len() == kw@.len(),
            i <= kw@.len(),
            chars@.subrange(0, i as int) == kw@.subrange(0, i as int),
        decreases kw@.len() - i,
    {
        if chars[i] != kw[i] {
            assert(chars@[i as int] != kw@[i as int]);
            return false;
        }
        i = i + 1;
        assert(chars@.subrange(0, i as int) =~= kw@.subrange(0, i as int));
    }
    assert(chars@ =~= chars@.subrange(0, i as int));
    assert(kw@ =~= kw@.subrange(0, i as int));
    true
}

/// What a GPU function returns.  The sum (for `add_gpu`) or product (for
/// `gpu_multiply`) must fit in `i64`.
pub fn gpu_function_result(name: &str, numbers: Option<(i64, i64)>) -> (r: Option<i64>)
    requires
        name@ == seq!['a', 'd', 'd', '_', 'g', 'p', 'u'] ==> (numbers matches Some((a, b)) ==> i64::MIN <= a + b
            <= i64::MAX),
        name@ == seq!['g', 'p', 'u', '_', 'm', 'u', 'l', 't', 'i', 'p', 'l', 'y'] ==> (numbers matches Some((a, b))
            ==> i64::MIN <= a * b <= i64::MAX),
    ensures
        r == gpu_result(name@, numbers),
{
    let chars = chars_of(name);
    if chars_are(&chars, &['a', 'd', 'd', '_', 'g', 'p', 'u']) {
        match numbers {
            Some((a, b)) => Some(a + b),
            None => Some(42),
        }
    } else if chars_are(&chars, &['g', 'p', 'u', '_', 'm', 'u', 'l', 't', 'i', 'p', 'l', 'y']) {
        match numbers {
            Some((a, b)) => Some(a * b),
            None => None,
        }
    } else {
        None
    }
}


/// The threads of a parallel loop split its iterations without gap or
/// overlap: the first thread starts at 0, each thread ends where the next
/// starts, no thread takes more than a share (the count divided by the
/// threads, rounded up), and the last thread in use ends at the count.
pub proof fn lemma_chunks_cover(n: nat, threads: nat, i: nat)
    requires
        threads > 0,
        n > 0,
    ensures
        thread_range(n, threads, 0).0 == 0,
        thread_range(n, threads, i).1 - thread_range(n, threads, i).0 <= chunk_len(n, threads),
        thread_range(n, threads, i).0 < n ==> thread_range(n, threads, i).1 == thread_range(n, threads, i + 1).0
            || thread_range(n, threads, i).1 == n,
        ({
            let k: nat = if threads < n { threads } else { n };
            thread_range(n, threads, (k - 1) as nat).1 == n
        }),
{
    let c = chunk_len(n, threads);
    let t = threads as int;
    lemma_fundamental_div_mod(n + t - 1, t);
    lemma_mod_pos_bound(n + t - 1, t);
    assert(t * c >= n);
    assert(c >= 1) by {
        if c == 0 {
            assert(t * c == 0) by (nonlinear_arith)
                requires
                    c == 0,
            ;
        }
    }
    assert((i + 1) * c == i * c + c) by (nonlinear_arith);
    let k: nat = if threads < n { threads } else { n };
    if threads < n {
        let km1: int = k - 1;
        assert(km1 * c + c == t * c) by (nonlinear_arith)
            requires
                k == t,
                km1 == k - 1,
        ;
    } else {
        assert(c <= 1) by {
            assert(n + t - 1 < 2 * t);
            lemma_div_upper(n + t - 1, t);
        }
        let km1: int = k - 1;
        assert(km1 * c + c == k * c) by (nonlinear_arith)
            requires
                km1 == k - 1,
        ;
        assert(k * c == n) by (nonlinear_arith)
            requires
                c == 1,
                k == n,
        ;
    }
}

proof fn lemma_div_upper(x: int, t: int)
    requires
        t > 0,
        0 <= x < 2 * t,
    ensures
        x / t <= 1,
{
    lemma_fundamental_div_mod(x, t);
    lemma_mod_pos_bound(x, t);
    let q = x / t;
    if q >= 2 {
        assert(t * q >= 2 * t) by (nonlinear_arith)
            requires
                q >= 2,
                t > 0,
        ;
    }
}

/// The simulated GPU functions compute on their two integer arguments:
/// `add_gpu` adds them and `gpu_multiply` multiplies them.
pub proof fn lemma_gpu_arithmetic(a: i64, b: i64)
    ensures
        i64::MIN <= a + b <= i64::MAX ==> gpu_result("add_gpu"@, Some((a, b))) == Some((a + b) as i64),
        i64::MIN <= a * b <= i64::MAX ==> gpu_result("gpu_multiply"@, Some((a, b))) == Some((a * b) as i64),
{
    reveal_strlit("add_gpu");
    reveal_strlit("gpu_multiply");
    assert("add_gpu"@ =~= seq!['a', 'd', 'd', '_', 'g', 'p', 'u']);
    assert("gpu_multiply"@ =~= seq!['g', 'p', 'u', '_', 'm', 'u', 'l', 't', 'i', 'p', 'l', 'y']);
}

} // verus!
