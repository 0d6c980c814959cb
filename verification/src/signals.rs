//! POSIX-like signals: the signal numbers the kernel knows, their default
//! actions, and a bitmask set of signals.

use vstd::prelude::*;

verus! {

/// Signal types supported by the kernel.
#[derive(Clone, Copy, Debug, PartialEq, Eq, Hash)]
pub enum Signal {
    /// Interrupt from keyboard (Ctrl+C)
    SIGINT,
    /// Termination signal
    SIGTERM,
    /// Kill signal (cannot be caught or ignored)
    SIGKILL,
    /// User-defined signal 1
    SIGUSR1,
    /// User-defined signal 2
    SIGUSR2,
    /// Child process terminated or stopped
    SIGCHLD,
    /// Segmentation fault
    SIGSEGV,
    /// Broken pipe: write to pipe with no readers
    SIGPIPE,
}

/// The POSIX number of a signal.
pub open spec fn signal_number(s: Signal) -> u32 {
    match s {
        Signal::SIGINT => 2,
        Signal::SIGTERM => 15,
        Signal::SIGKILL => 9,
        Signal::SIGUSR1 => 10,
        Signal::SIGUSR2 => 12,
        Signal::SIGCHLD => 17,
        Signal::SIGSEGV => 11,
        Signal::SIGPIPE => 13,
    }
}

/// The signal with a given POSIX number, if the kernel knows one.
pub open spec fn signal_from_number(n: u32) -> Option<Signal> {
    if n == 2 {
        Some(Signal::SIGINT)
    } else if n == 15 {
        Some(Signal::SIGTERM)
    } else if n == 9 {
        Some(Signal::SIGKILL)
    } else if n == 10 {
        Some(Signal::SIGUSR1)
    } else if n == 12 {
        Some(Signal::SIGUSR2)
    } else if n == 17 {
        Some(Signal::SIGCHLD)
    } else if n == 11 {
        Some(Signal::SIGSEGV)
    } else if n == 13 {
        Some(Signal::SIGPIPE)
    } else {
        None
    }
}

/// The action a signal takes when no handler is installed.
pub open spec fn signal_default_action(s: Signal) -> SignalAction {
    match s {
        Signal::SIGCHLD => SignalAction::Ignore,
        _ => SignalAction::Terminate,
    }
}

impl Signal {
    /// Get signal from number
    pub fn from_number(num: u32) -> (r: Option<Signal>)
        ensures
            r == signal_from_number(num),
    {
        match num {
            2 => Some(Signal::SIGINT),
            15 => Some(Signal::SIGTERM),
            9 => Some(Signal::SIGKILL),
            10 => Some(Signal::SIGUSR1),
            12 => Some(Signal::SIGUSR2),
            17 => Some(Signal::SIGCHLD),
            11 => Some(Signal::SIGSEGV),
            13 => Some(Signal::SIGPIPE),
            _ => None,
        }
    }

    /// Get signal number
    pub fn number(&self) -> (r: u32)
        ensures
            r == signal_number(*self),
    {
        match self {
            Signal::SIGINT => 2,
            Signal::SIGTERM => 15,
            Signal::SIGKILL => 9,
            Signal::SIGUSR1 => 10,
            Signal::SIGUSR2 => 12,
            Signal::SIGCHLD => 17,
            Signal::SIGSEGV => 11,
            Signal::SIGPIPE => 13,
        }
    }

    /// Check if signal can be caught or ignored
    pub fn is_catchable(&self) -> (r: bool)
        ensures
            r == (*self != Signal::SIGKILL),
    {
        !matches!(self, Signal::SIGKILL)
    }

    /// Get default action for signal
    pub fn default_action(&self) -> (r: SignalAction)
        ensures
            r == signal_default_action(*self),
            r == SignalAction::Ignore <==> *self == Signal::SIGCHLD,
            r == SignalAction::Terminate <==> *self != Signal::SIGCHLD,
    {
        match self {
            Signal::SIGKILL
            | Signal::SIGTERM
            | Signal::SIGINT
            | Signal::SIGSEGV
            | Signal::SIGPIPE => SignalAction::Terminate,
            Signal::SIGCHLD => SignalAction::Ignore,
            Signal::SIGUSR1 | Signal::SIGUSR2 => SignalAction::Terminate,
        }
    }
}

/// Every known signal but `SIGCHLD` terminates a process by default;
/// `SIGCHLD` is ignored; no signal runs a handler by default.
pub proof fn law_default_actions(s: Signal)
    ensures
        signal_default_action(s) == SignalAction::Ignore <==> s == Signal::SIGCHLD,
        signal_default_action(s) == SignalAction::Terminate <==> s != Signal::SIGCHLD,
        !(signal_default_action(s) is Handler),
{
}

/// The signals carry their POSIX numbers.
pub proof fn law_signal_numbers()
    ensures
        signal_number(Signal::SIGINT) == 2,
        signal_number(Signal::SIGKILL) == 9,
        signal_number(Signal::SIGUSR1) == 10,
        signal_number(Signal::SIGSEGV) == 11,
        signal_number(Signal::SIGUSR2) == 12,
        signal_number(Signal::SIGPIPE) == 13,
        signal_number(Signal::SIGTERM) == 15,
        signal_number(Signal::SIGCHLD) == 17,
{
}

/// Converting a signal to its number and back gives the signal again, and
/// the only number that converts to a signal is that signal's number.
pub proof fn lemma_signal_number_roundtrip(s: Signal, n: u32)
    ensures
        signal_from_number(signal_number(s)) == Some(s),
        signal_from_number(n) == Some(s) ==> n == signal_number(s),
{
}

/// Distinct signals have distinct numbers, and every number is below 64.
pub proof fn lemma_signal_number_injective(s: Signal, t: Signal)
    ensures
        s != t ==> signal_number(s) != signal_number(t),
        signal_number(s) < 64,
{
}

/// Signal action to take when signal is delivered
#[derive(Clone, Copy, Debug, PartialEq, Eq)]
pub enum SignalAction {
    /// Terminate the process
    Terminate,
    /// Ignore the signal
    Ignore,
    /// Execute custom handler (handler ID)
    Handler(u32),
}

/// The bit that stands for a signal in a signal set's mask.
pub open spec fn signal_bit(s: Signal) -> u64 {
    1u64 << signal_number(s)
}

/// The mask with the bit of every known signal set.
pub open spec fn all_signals_mask() -> u64 {
    (1u64 << 2u64) | (1u64 << 9u64) | (1u64 << 10u64) | (1u64 << 11u64) | (1u64 << 12u64)
        | (1u64 << 13u64) | (1u64 << 15u64) | (1u64 << 17u64)
}

/// Signal set for pending and blocked signals
#[derive(Clone, Copy, Debug, PartialEq, Eq)]
pub struct SignalSet {
    /// Bitmask of signals (bit N set if signal N is present)
    mask: u64,
}

impl SignalSet {
    /// Only bits of known signals are ever set.
    #[verifier::type_invariant]
    spec fn inv(self) -> bool {
        self.mask & !all_signals_mask() == 0
    }

    /// The signals in the set.
    pub closed spec fn view(&self) -> Set<Signal> {
        Set::new(|s: Signal| self.mask & signal_bit(s) != 0)
    }

    /// Create empty signal set
    pub fn new() -> (r: Self)
        ensures
            r@ == Set::<Signal>::empty(),
    {
        assert(0u64 & !all_signals_mask() == 0) by (bit_vector);
        let r = SignalSet { mask: 0 };
        assert(r@ =~= Set::<Signal>::empty()) by {
            assert forall|s: Signal| !(#[trigger] r@.contains(s)) by {
                let b = signal_bit(s);
                assert(0u64 & b == 0) by (bit_vector);
            }
        }
        r
    }

    /// Add signal to set
    pub fn add(&mut self, signal: Signal)
        ensures
            final(self)@ == old(self)@.insert(signal),
    {
        proof {
            use_type_invariant(&*self);
        }
        let n = signal.number();
        let m = self.mask;
        let r = m | (1u64 << n);
        proof {
            lemma_bits_after_add(m, signal);
        }
        self.mask = r;
        assert(self@ =~= old(self)@.insert(signal)) by {
            assert forall|t: Signal| #[trigger] self@.contains(t) == old(self)@.insert(signal).contains(t) by {
                lemma_bit_or(m, signal, t);
            }
        }
    }

    /// Remove signal from set
    pub fn remove(&mut self, signal: Signal)
        ensures
            final(self)@ == old(self)@.remove(signal),
    {
        proof {
            use_type_invariant(&*self);
        }
        let n = signal.number();
        let m = self.mask;
        let r = m & !(1u64 << n);
        proof {
            lemma_bits_after_remove(m, signal);
        }
        self.mask = r;
        assert(self@ =~= old(self)@.remove(signal)) by {
            assert forall|t: Signal| #[trigger] self@.contains(t) == old(self)@.remove(signal).contains(t) by {
                lemma_bit_and_not(m, signal, t);
            }
        }
    }

    /// Check if signal is in set
    pub fn contains(&self, signal: Signal) -> (r: bool)
        ensures
            r == self@.contains(signal),
    {
        (self.mask & (1u64 << signal.number())) != 0
    }

    /// Check if set is empty
    pub fn is_empty(&self) -> (r: bool)
        ensures
            r == (self@ == Set::<Signal>::empty()),
    {
        proof {
            use_type_invariant(self);
            lemma_empty_mask(self.mask);
            if self.mask != 0 {
                let s = choose|s: Signal| self.mask & signal_bit(s) != 0;
                assert(self@.contains(s));
                assert(!Set::<Signal>::empty().contains(s));
            } else {
                assert(self@ =~= Set::<Signal>::empty()) by {
                    assert forall|s: Signal| !(#[trigger] self@.contains(s)) by {
                        let b = signal_bit(s);
                        assert(0u64 & b == 0) by (bit_vector);
                    }
                }
            }
        }
        self.mask == 0
    }

    /// Clear all signals
    pub fn clear(&mut self)
        ensures
            final(self)@ == Set::<Signal>::empty(),
    {
        *self = SignalSet::new();
    }

    /// Get next pending signal (lowest number)
    pub fn next_signal(&self) -> (r: Option<Signal>)
        ensures
            r is None <==> self@ == Set::<Signal>::empty(),
            r matches Some(s) ==> self@.contains(s) && forall|t: Signal|
                #![trigger self@.contains(t)]
                self@.contains(t) ==> signal_number(s) <= signal_number(t),
    {
        let is_empty = self.is_empty();
        if self.contains(Signal::SIGINT) {
            return Some(Signal::SIGINT);
        }
        if self.contains(Signal::SIGKILL) {
            return Some(Signal::SIGKILL);
        }
        if self.contains(Signal::SIGUSR1) {
            return Some(Signal::SIGUSR1);
        }
        if self.contains(Signal::SIGSEGV) {
            return Some(Signal::SIGSEGV);
        }
        if self.contains(Signal::SIGUSR2) {
            return Some(Signal::SIGUSR2);
        }
        if self.contains(Signal::SIGPIPE) {
            return Some(Signal::SIGPIPE);
        }
        if self.contains(Signal::SIGTERM) {
            return Some(Signal::SIGTERM);
        }
        if self.contains(Signal::SIGCHLD) {
            return Some(Signal::SIGCHLD);
        }
        proof {
            assert(self@ =~= Set::<Signal>::empty()) by {
                assert forall|t: Signal| !(#[trigger] self@.contains(t)) by {
                    match t {
                        Signal::SIGINT => {},
                        Signal::SIGKILL => {},
                        Signal::SIGUSR1 => {},
                        Signal::SIGSEGV => {},
                        Signal::SIGUSR2 => {},
                        Signal::SIGPIPE => {},
                        Signal::SIGTERM => {},
                        Signal::SIGCHLD => {},
                    }
                }
            }
        }
        None
    }
}

/// Setting a signal's bit leaves the mask within the known signals.
proof fn lemma_bits_after_add(m: u64, s: Signal)
    requires
        m & !all_signals_mask() == 0,
    ensures
        (m | signal_bit(s)) & !all_signals_mask() == 0,
{
    let n = signal_number(s) as u64;
    assert(n == 2 || n == 9 || n == 10 || n == 11 || n == 12 || n == 13 || n == 15 || n == 17);
    assert(m & !all_signals_mask() == 0 && (n == 2 || n == 9 || n == 10 || n == 11 || n == 12
        || n == 13 || n == 15 || n == 17) ==> (m | (1u64 << n)) & !all_signals_mask() == 0)
        by (bit_vector);
}

/// Clearing a signal's bit leaves the mask within the known signals.
proof fn lemma_bits_after_remove(m: u64, s: Signal)
    requires
        m & !all_signals_mask() == 0,
    ensures
        (m & !signal_bit(s)) & !all_signals_mask() == 0,
{
    let n = signal_number(s) as u64;
    assert(m & !all_signals_mask() == 0 && n < 64 ==> (m & !(1u64 << n)) & !all_signals_mask()
        == 0) by (bit_vector);
}

/// After setting the bit of `s`, the bit of `t` is set iff it was set or `t` is `s`.
proof fn lemma_bit_or(m: u64, s: Signal, t: Signal)
    ensures
        ((m | signal_bit(s)) & signal_bit(t) != 0) == (m & signal_bit(t) != 0 || s == t),
{
    lemma_signal_number_injective(s, t);
    let a = signal_number(s) as u64;
    let b = signal_number(t) as u64;
    assert(a < 64 && b < 64 ==> (((m | (1u64 << a)) & (1u64 << b) != 0) == (m & (1u64 << b) != 0
        || a == b))) by (bit_vector);
}

/// After clearing the bit of `s`, the bit of `t` is set iff it was set and `t` is not `s`.
proof fn lemma_bit_and_not(m: u64, s: Signal, t: Signal)
    ensures
        ((m & !signal_bit(s)) & signal_bit(t) != 0) == (m & signal_bit(t) != 0 && s != t),
{
    lemma_signal_number_injective(s, t);
    let a = signal_number(s) as u64;
    let b = signal_number(t) as u64;
    assert(a < 64 && b < 64 ==> (((m & !(1u64 << a)) & (1u64 << b) != 0) == (m & (1u64 << b) != 0
        && a != b))) by (bit_vector);
}

/// A mask within the known signals is non-zero exactly when some signal's bit is set.
proof fn lemma_empty_mask(m: u64)
    requires
        m & !all_signals_mask() == 0,
    ensures
        m != 0 ==> exists|s: Signal| m & signal_bit(s) != 0,
{
    if m != 0 {
        assert(m & !all_signals_mask() == 0 && m != 0 ==> (m & (1u64 << 2u64) != 0 || m & (1u64
            << 9u64) != 0 || m & (1u64 << 10u64) != 0 || m & (1u64 << 11u64) != 0 || m & (1u64
            << 12u64) != 0 || m & (1u64 << 13u64) != 0 || m & (1u64 << 15u64) != 0 || m & (1u64
            << 17u64) != 0)) by (bit_vector);
        if m & signal_bit(Signal::SIGINT) != 0 {
        } else if m & signal_bit(Signal::SIGKILL) != 0 {
        } else if m & signal_bit(Signal::SIGUSR1) != 0 {
        } else if m & signal_bit(Signal::SIGSEGV) != 0 {
        } else if m & signal_bit(Signal::SIGUSR2) != 0 {
        } else if m & signal_bit(Signal::SIGPIPE) != 0 {
        } else if m & signal_bit(Signal::SIGTERM) != 0 {
        } else {
            assert(m & signal_bit(Signal::SIGCHLD) != 0);
        }
    }
}

impl Default for SignalSet {
    fn default() -> (r: Self)
        ensures
            r@ == Set::<Signal>::empty(),
    {
        Self::new()
    }
}

} // verus!
