//! Warehouses (gestiuni): normalization and validation of their data and the rule for
//! deleting one.

use vstd::prelude::*;
use crate::text::{owned, trim, spec_trim, to_uppercase, spec_to_uppercase};

verus! {

/// A warehouse as stored.
#[derive(Clone, Debug)]
pub struct Gestiune {
    pub id: String,
    pub company_id: String,
    pub cod: String,
    pub denumire: String,
    pub tip: String,
    pub metoda_evaluare: String,
    pub cont_stoc: String,
    pub adresa: Option<String>,
    pub dispersata_teritorial: i64,
    pub is_default: i64,
    pub activ: i64,
    pub created_at: i64,
}

/// A warehouse as entered.
#[derive(Clone, Debug)]
pub struct GestiuneInput {
    pub cod: String,
    pub denumire: String,
    pub tip: Option<String>,
    pub metoda_evaluare: Option<String>,
    pub cont_stoc: Option<String>,
    pub adresa: Option<String>,
    pub dispersata_teritorial: Option<bool>,
}

/// Why a warehouse operation was refused.
#[derive(Clone, Copy, Debug, PartialEq, Eq, Structural)]
pub enum GestiuneError {
    /// The code is blank.
    EmptyCode,
    /// The name is blank.
    EmptyName,
    /// The default warehouse cannot be deleted.
    DefaultNotDeletable,
    /// A warehouse with stock movements cannot be deleted.
    HasStock,
}

/// The stored fields of a warehouse (code, name, type, valuation method, stock account,
/// address, spread flag).
pub struct GestiuneFields {
    pub cod: String,
    pub denumire: String,
    pub tip: String,
    pub metoda_evaluare: String,
    pub cont_stoc: String,
    pub adresa: Option<String>,
    pub dispersata_teritorial: i64,
}

pub open spec fn opt_or(o: Option<String>, d: Seq<char>) -> Seq<char> {
    match o {
        Some(s) => s@,
        None => d,
    }
}

/// The fields of a warehouse from its input: the code trimmed and upper-cased and the
/// name trimmed, both required; a missing type, method or account takes the value of
/// `base` (the defaults for a new warehouse, the current values for an edit); a missing
/// address keeps `base_adresa`; a missing spread flag keeps `base_dispersata`.
pub fn gestiune_fields(
    input: &GestiuneInput,
    base_tip: &str,
    base_metoda: &str,
    base_cont: &str,
    base_adresa: &Option<String>,
    base_dispersata: i64,
) -> (r: Result<GestiuneFields, GestiuneError>)
    ensures
        ({
            let cod = spec_to_uppercase(spec_trim(input.cod@));
            let den = spec_trim(input.denumire@);
            &&& cod.len() == 0 ==> r == Err::<GestiuneFields, GestiuneError>(GestiuneError::EmptyCode)
            &&& cod.len() > 0 && den.len() == 0 ==> r == Err::<GestiuneFields, GestiuneError>(GestiuneError::EmptyName)
            &&& cod.len() > 0 && den.len() > 0 ==> (r matches Ok(f) && {
                &&& f.cod@ == cod
                &&& f.denumire@ == den
                &&& f.tip@ == opt_or(input.tip, base_tip@)
                &&& f.metoda_evaluare@ == opt_or(input.metoda_evaluare, base_metoda@)
                &&& f.cont_stoc@ == opt_or(input.cont_stoc, base_cont@)
                &&& f.adresa == (match input.adresa { Some(a) => Some(a), None => *base_adresa })
                &&& f.dispersata_teritorial == (match input.dispersata_teritorial {
                    Some(b) => if b { 1i64 } else { 0i64 },
                    None => base_dispersata,
                })
            })
        }),
{
    let cod = to_uppercase(trim(input.cod.as_str()));
    if cod.as_str().unicode_len() == 0 {
        return Err(GestiuneError::EmptyCode);
    }
    let den = owned(trim(input.denumire.as_str()));
    if den.as_str().unicode_len() == 0 {
        return Err(GestiuneError::EmptyName);
    }
    let tip = match &input.tip {
        Some(t) => t.clone(),
        None => owned(base_tip),
    };
    let metoda = match &input.metoda_evaluare {
        Some(t) => t.clone(),
        None => owned(base_metoda),
    };
    let cont = match &input.cont_stoc {
        Some(t) => t.clone(),
        None => owned(base_cont),
    };
    let adresa = match &input.adresa {
        Some(a) => Some(a.clone()),
        None => base_adresa.clone(),
    };
    let disp: i64 = match input.dispersata_teritorial {
        Some(b) => if b { 1 } else { 0 },
        None => base_dispersata,
    };
    Ok(GestiuneFields { cod, denumire: den, tip, metoda_evaluare: metoda, cont_stoc: cont, adresa, dispersata_teritorial: disp })
}

/// The fields of a new warehouse: defaults type `cantitativ_valorica`, method `CMP`,
/// account `371`, no address, not spread.
pub fn new_gestiune_fields(input: &GestiuneInput) -> (r: Result<GestiuneFields, GestiuneError>)
    ensures
        ({
            let cod = spec_to_uppercase(spec_trim(input.cod@));
            let den = spec_trim(input.denumire@);
            &&& cod.len() == 0 ==> r == Err::<GestiuneFields, GestiuneError>(GestiuneError::EmptyCode)
            &&& cod.len() > 0 && den.len() == 0 ==> r == Err::<GestiuneFields, GestiuneError>(GestiuneError::EmptyName)
            &&& cod.len() > 0 && den.len() > 0 ==> (r matches Ok(f) && {
                &&& f.cod@ == cod
                &&& f.denumire@ == den
                &&& f.tip@ == opt_or(input.tip, "cantitativ_valorica"@)
                &&& f.metoda_evaluare@ == opt_or(input.metoda_evaluare, "CMP"@)
                &&& f.cont_stoc@ == opt_or(input.cont_stoc, "371"@)
                &&& f.adresa == input.adresa
                &&& f.dispersata_teritorial == (match input.dispersata_teritorial {
                    Some(b) => if b { 1i64 } else { 0i64 },
                    None => 0i64,
                })
            })
        }),
{
    gestiune_fields(input, "cantitativ_valorica", "CMP", "371", &None, 0)
}

/// A warehouse can be deleted unless it is the default one or has stock movements (in
/// this order).
pub fn check_deletable(is_default: i64, stock_movements: i64) -> (r: Result<(), GestiuneError>)
    ensures
        is_default == 1 ==> r == Err::<(), GestiuneError>(GestiuneError::DefaultNotDeletable),
        is_default != 1 && stock_movements > 0 ==> r == Err::<(), GestiuneError>(GestiuneError::HasStock),
        is_default != 1 && stock_movements <= 0 ==> r is Ok,
{
    if is_default == 1 {
        return Err(GestiuneError::DefaultNotDeletable);
    }
    if stock_movements > 0 {
        return Err(GestiuneError::HasStock);
    }
    Ok(())
}

} // verus!
