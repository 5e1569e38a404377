//! The five time-value-of-money registers of the financial mode and the
//! choice of the four known values that a solve needs. The registers are
//! generic in the number type, so the same rules hold whatever the values
//! are.

use vstd::prelude::*;
use crate::text::str_eq;

verus! {

/// The five TVM variables: number of periods, interest per year, present
/// value, payment and future value.
#[derive(Debug, Clone, Copy, PartialEq, Eq, Structural)]
pub enum TvmVar {
    N,
    IY,
    PV,
    PMT,
    FV,
}

/// The label of a TVM variable.
pub open spec fn tvm_name(v: TvmVar) -> Seq<char> {
    match v {
        TvmVar::N => "N"@,
        TvmVar::IY => "I/Y"@,
        TvmVar::PV => "PV"@,
        TvmVar::PMT => "PMT"@,
        TvmVar::FV => "FV"@,
    }
}

/// The TVM variable with the given label, if any.
pub open spec fn tvm_var_of_name(s: Seq<char>) -> Option<TvmVar> {
    if s == "N"@ {
        Some(TvmVar::N)
    } else if s == "I/Y"@ {
        Some(TvmVar::IY)
    } else if s == "PV"@ {
        Some(TvmVar::PV)
    } else if s == "PMT"@ {
        Some(TvmVar::PMT)
    } else if s == "FV"@ {
        Some(TvmVar::FV)
    } else {
        None
    }
}

impl TvmVar {
    /// The TVM variable with the given label, if any.
    pub fn from_name(s: &str) -> (r: Option<TvmVar>)
        ensures
            r == tvm_var_of_name(s@),
    {
        if str_eq(s, "N") {
            Some(TvmVar::N)
        } else if str_eq(s, "I/Y") {
            Some(TvmVar::IY)
        } else if str_eq(s, "PV") {
            Some(TvmVar::PV)
        } else if str_eq(s, "PMT") {
            Some(TvmVar::PMT)
        } else if str_eq(s, "FV") {
            Some(TvmVar::FV)
        } else {
            None
        }
    }

    /// The label of this variable.
    pub fn name(self) -> (r: &'static str)
        ensures
            r@ == tvm_name(self),
    {
        match self {
            TvmVar::N => "N",
            TvmVar::IY => "I/Y",
            TvmVar::PV => "PV",
            TvmVar::PMT => "PMT",
            TvmVar::FV => "FV",
        }
    }
}

/// Law: the label of a variable names that variable.
pub proof fn lemma_tvm_name_round_trip(v: TvmVar)
    ensures
        tvm_var_of_name(tvm_name(v)) == Some(v),
{
    reveal_strlit("N");
    reveal_strlit("I/Y");
    reveal_strlit("PV");
    reveal_strlit("PMT");
    reveal_strlit("FV");
    assert("N"@.len() == 1);
    assert("PV"@[1] == 'V');
    assert("I/Y"@.len() == 3);
    assert("PMT"@[1] == 'M');
    assert("FV"@[0] == 'F');
}

/// The five TVM registers; each holds a value or nothing.
#[derive(Debug, Clone, Copy)]
pub struct TvmSlots<T> {
    pub n: Option<T>,
    pub iy: Option<T>,
    pub pv: Option<T>,
    pub pmt: Option<T>,
    pub fv: Option<T>,
}

/// `name is not set (needed to solve solving)`.
pub open spec fn not_set_msg(name: Seq<char>, solving: Seq<char>) -> Seq<char> {
    name + " is not set (needed to solve "@ + solving + ")"@
}

/// `Unknown key 'name'`.
pub open spec fn unknown_key_msg(name: Seq<char>) -> Seq<char> {
    "Unknown key '"@ + name + "'"@
}

impl<T: Copy> TvmSlots<T> {
    /// The register of variable `v`.
    pub open spec fn slot(&self, v: TvmVar) -> Option<T> {
        match v {
            TvmVar::N => self.n,
            TvmVar::IY => self.iy,
            TvmVar::PV => self.pv,
            TvmVar::PMT => self.pmt,
            TvmVar::FV => self.fv,
        }
    }

    /// The values named `names[j..]`, in order, or the message of the first
    /// name that is no variable or whose register is empty.
    pub open spec fn need_from(&self, solving: Seq<char>, names: Seq<Seq<char>>, j: int) -> Result<
        Seq<T>,
        Seq<char>,
    >
        decreases names.len() - j,
    {
        if j < 0 || j >= names.len() {
            Ok(Seq::empty())
        } else {
            match tvm_var_of_name(names[j]) {
                None => Err(unknown_key_msg(names[j])),
                Some(v) => match self.slot(v) {
                    None => Err(not_set_msg(names[j], solving)),
                    Some(x) => match self.need_from(solving, names, j + 1) {
                        Ok(rest) => Ok(seq![x] + rest),
                        Err(e) => Err(e),
                    },
                },
            }
        }
    }

    /// Empty registers.
    pub fn new() -> (s: Self)
        ensures
            s.n is None && s.iy is None && s.pv is None && s.pmt is None && s.fv is None,
    {
        TvmSlots { n: None, iy: None, pv: None, pmt: None, fv: None }
    }

    /// Empties every register.
    pub fn clear(&mut self)
        ensures
            final(self).n is None && final(self).iy is None && final(self).pv is None
                && final(self).pmt is None && final(self).fv is None,
    {
        *self = Self::new();
    }

    /// The register of variable `v`.
    pub fn get(&self, v: TvmVar) -> (r: Option<T>)
        ensures
            r == self.slot(v),
            v == TvmVar::N ==> r == self.n,
            v == TvmVar::IY ==> r == self.iy,
            v == TvmVar::PV ==> r == self.pv,
            v == TvmVar::PMT ==> r == self.pmt,
            v == TvmVar::FV ==> r == self.fv,
    {
        match v {
            TvmVar::N => self.n,
            TvmVar::IY => self.iy,
            TvmVar::PV => self.pv,
            TvmVar::PMT => self.pmt,
            TvmVar::FV => self.fv,
        }
    }

    /// Stores `x` in the register of `v`; the others keep their values.
    pub fn set(&mut self, v: TvmVar, x: T)
        ensures
            final(self).slot(v) == Some(x),
            forall|w: TvmVar| w != v ==> final(self).slot(w) == old(self).slot(w),
            final(self).n == (if v == TvmVar::N { Some(x) } else { old(self).n }),
            final(self).iy == (if v == TvmVar::IY { Some(x) } else { old(self).iy }),
            final(self).pv == (if v == TvmVar::PV { Some(x) } else { old(self).pv }),
            final(self).pmt == (if v == TvmVar::PMT { Some(x) } else { old(self).pmt }),
            final(self).fv == (if v == TvmVar::FV { Some(x) } else { old(self).fv }),
    {
        match v {
            TvmVar::N => self.n = Some(x),
            TvmVar::IY => self.iy = Some(x),
            TvmVar::PV => self.pv = Some(x),
            TvmVar::PMT => self.pmt = Some(x),
            TvmVar::FV => self.fv = Some(x),
        }
    }

    /// The four values named by `names`, in order, needed to solve for
    /// `solving`; or the message of the first name that is no variable or
    /// whose register is empty (see `need_from`).
    pub fn need(&self, solving: &str, names: &[&str; 4]) -> (r: Result<(T, T, T, T), String>)
        ensures
            ({
                let spec = self.need_from(solving@, names@.map_values(|s: &str| s@), 0);
                match r {
                    Ok((a, b, c, d)) => spec == Ok::<Seq<T>, Seq<char>>(seq![a, b, c, d]),
                    Err(e) => spec == Err::<Seq<T>, Seq<char>>(e@),
                }
            }),
    {
        let ghost ns = names@.map_values(|s: &str| s@);
        let mut out: Vec<T> = Vec::new();
        let mut j: usize = 0;
        while j < 4
            invariant
                j <= 4,
                names@.len() == 4,
                ns == names@.map_values(|s: &str| s@),
                out@.len() == j,
                self.need_from(solving@, ns, 0) == match self.need_from(solving@, ns, j as int) {
                    Ok(rest) => Ok(out@ + rest),
                    Err(e) => Err::<Seq<T>, Seq<char>>(e),
                },
            decreases 4 - j,
        {
            let name = names[j];
            assert(ns[j as int] == name@);
            match TvmVar::from_name(name) {
                None => {
                    let mut m = String::new();
                    m.append("Unknown key '");
                    m.append(name);
                    m.append("'");
                    assert(m@ =~= unknown_key_msg(name@));
                    return Err(m);
                },
                Some(v) => match self.get(v) {
                    None => {
                        let mut m = String::new();
                        m.append(name);
                        m.append(" is not set (needed to solve ");
                        m.append(solving);
                        m.append(")");
                        assert(m@ =~= not_set_msg(name@, solving@));
                        return Err(m);
                    },
                    Some(x) => {
                        let ghost before = out@;
                        out.push(x);
                        proof {
                            match self.need_from(solving@, ns, j + 1) {
                                Ok(rest) => {
                                    assert(before + (seq![x] + rest) =~= out@ + rest);
                                },
                                Err(e) => {},
                            }
                        }
                    },
                },
            }
            j = j + 1;
        }
        assert(self.need_from(solving@, ns, 4) == Ok::<Seq<T>, Seq<char>>(Seq::empty()));
        assert(out@ + Seq::<T>::empty() =~= out@);
        assert(out@ =~= seq![out@[0], out@[1], out@[2], out@[3]]);
        Ok((out[0], out[1], out[2], out[3]))
    }
}

/// Law: the register of each TVM variable is the field of the same name, and
/// the label of each register names that register: `N` is `n`, `I/Y` is
/// `iy`, `PV` is `pv`, `PMT` is `pmt` and `FV` is `fv`.
pub proof fn lemma_register_is_named_field<T: Copy>(s: TvmSlots<T>)
    ensures
        s.slot(TvmVar::N) == s.n,
        s.slot(TvmVar::IY) == s.iy,
        s.slot(TvmVar::PV) == s.pv,
        s.slot(TvmVar::PMT) == s.pmt,
        s.slot(TvmVar::FV) == s.fv,
        tvm_var_of_name(seq!['N']) == Some(TvmVar::N),
        tvm_var_of_name(seq!['I', '/', 'Y']) == Some(TvmVar::IY),
        tvm_var_of_name(seq!['P', 'V']) == Some(TvmVar::PV),
        tvm_var_of_name(seq!['P', 'M', 'T']) == Some(TvmVar::PMT),
        tvm_var_of_name(seq!['F', 'V']) == Some(TvmVar::FV),
{
    reveal_strlit("N");
    reveal_strlit("I/Y");
    reveal_strlit("PV");
    reveal_strlit("PMT");
    reveal_strlit("FV");
    assert("N"@ =~= seq!['N']);
    assert("I/Y"@ =~= seq!['I', '/', 'Y']);
    assert("PV"@ =~= seq!['P', 'V']);
    assert("PMT"@ =~= seq!['P', 'M', 'T']);
    assert("FV"@ =~= seq!['F', 'V']);
}

} // verus!
