//! Material records: the built-in presets and user-defined materials.
//!
//! A material is a simple validated record; density is carried in
//! thousandths of g/cm³ like every other fixed-point magnitude.

use vstd::prelude::*;
use vstd::string::StringExecFns;
use crate::units::str_chars;

verus! {

/// A target material for a simulation run.
#[derive(Clone, Debug)]
pub struct Material {
    pub name: String,
    pub atomic_number: u8,
    pub density_g_cm3: i64,
}

impl Material {
    /// A visible name, an atomic number in [1, 100], and a strictly
    /// positive density (thousandths of g/cm³).
    pub open spec fn wf(&self) -> bool {
        &&& has_visible_char(self.name@)
        &&& 1 <= self.atomic_number <= 100
        &&& self.density_g_cm3 > 0
    }
}

/// Whether some character is not whitespace: what is left of a name
/// after trimming is non-empty.
pub open spec fn has_visible_char(s: Seq<char>) -> bool {
    exists|i: int| 0 <= i < s.len() && !is_whitespace_char(#[trigger] s[i])
}

/// The Unicode White_Space characters, the only kind a material name
/// may not consist of.
pub open spec fn is_whitespace_char(c: char) -> bool {
    ||| (0x09 <= c as u32 <= 0x0D)
    ||| c as u32 == 0x20
    ||| c as u32 == 0x85
    ||| c as u32 == 0xA0
    ||| c as u32 == 0x1680
    ||| (0x2000 <= c as u32 <= 0x200A)
    ||| c as u32 == 0x2028
    ||| c as u32 == 0x2029
    ||| c as u32 == 0x202F
    ||| c as u32 == 0x205F
    ||| c as u32 == 0x3000
}

/// Case-insensitive equality of two characters, folding ASCII letters
/// only.
pub open spec fn eq_ic_char(a: char, b: char) -> bool {
    lower_code(a as u32) == lower_code(b as u32)
}

/// The lower-case code point of an ASCII letter; any other code point
/// unchanged.
pub open spec fn lower_code(x: u32) -> u32 {
    if 65 <= x <= 90 {
        (x + 32) as u32
    } else {
        x
    }
}

/// ASCII-case-insensitive equality of two names.
pub open spec fn eq_ignore_case(a: Seq<char>, b: Seq<char>) -> bool {
    a.len() == b.len() && forall|i: int| 0 <= i < a.len() ==> eq_ic_char(#[trigger] a[i], b[i])
}

/// Compares two names, ignoring ASCII case.
fn names_match(a: &str, b: &str) -> (r: bool)
    ensures
        r == eq_ignore_case(a@, b@),
{
    let ca = str_chars(a);
    let cb = str_chars(b);
    if ca.len() != cb.len() {
        return false;
    }
    let n = ca.len();
    let mut i: usize = 0;
    while i < n
        invariant
            i <= n,
            n == ca@.len(),
            n == cb@.len(),
            ca@ == a@,
            cb@ == b@,
            forall|k: int| 0 <= k < i ==> eq_ic_char(#[trigger] ca@[k], cb@[k]),
        decreases n - i,
    {
        let x = ca[i] as u32;
        let y = cb[i] as u32;
        let xl = if x >= 65 && x <= 90 {
            x + 32
        } else {
            x
        };
        let yl = if y >= 65 && y <= 90 {
            y + 32
        } else {
            y
        };
        if xl != yl {
            return false;
        }
        i = i + 1;
    }
    true
}

/// The built-in materials: copper, silicon, carbon.
pub fn preset_materials() -> (r: Vec<Material>)
    ensures
        r@.len() == 3,
        r@[0].name@ == "Copper"@ && r@[0].atomic_number == 29 && r@[0].density_g_cm3 == 8960,
        r@[1].name@ == "Silicon"@ && r@[1].atomic_number == 14 && r@[1].density_g_cm3 == 2330,
        r@[2].name@ == "Carbon"@ && r@[2].atomic_number == 6 && r@[2].density_g_cm3 == 2000,
        forall|i: int| 0 <= i < 3 ==> #[trigger] r@[i].wf(),
{
    proof {
        reveal_strlit("Copper");
        reveal_strlit("Silicon");
        reveal_strlit("Carbon");
    }
    let mut out: Vec<Material> = Vec::new();
    out.push(
        Material {
            name: String::from_str("Copper"),
            atomic_number: 29,
            density_g_cm3: 8960,
        },
    );
    out.push(
        Material {
            name: String::from_str("Silicon"),
            atomic_number: 14,
            density_g_cm3: 2330,
        },
    );
    out.push(
        Material { name: String::from_str("Carbon"), atomic_number: 6, density_g_cm3: 2000 },
    );
    proof {
        assert(out@[0].name@[0] == 'C' && !is_whitespace_char('C'));
        assert(out@[1].name@[0] == 'S' && !is_whitespace_char('S'));
        assert(out@[2].name@[0] == 'C');
    }
    out
}

/// Retrieves a preset material by name, ignoring ASCII case.
pub fn get_preset_material(name: &str) -> (r: Option<Material>)
    ensures
        r is Some <==> (eq_ignore_case(name@, "Copper"@) || eq_ignore_case(name@, "Silicon"@)
            || eq_ignore_case(name@, "Carbon"@)),
        eq_ignore_case(name@, "Copper"@) ==> (r matches Some(m) && m.name@ == "Copper"@
            && m.atomic_number == 29 && m.density_g_cm3 == 8960),
        eq_ignore_case(name@, "Silicon"@) ==> (r matches Some(m) && m.name@ == "Silicon"@
            && m.atomic_number == 14 && m.density_g_cm3 == 2330),
        eq_ignore_case(name@, "Carbon"@) ==> (r matches Some(m) && m.name@ == "Carbon"@
            && m.atomic_number == 6 && m.density_g_cm3 == 2000),
        r matches Some(m) ==> m.wf(),
{
    proof {
        reveal_strlit("Copper");
        reveal_strlit("Silicon");
        reveal_strlit("Carbon");
        assert(!(eq_ignore_case(name@, "Copper"@) && eq_ignore_case(name@, "Carbon"@))) by {
            if eq_ignore_case(name@, "Copper"@) && eq_ignore_case(name@, "Carbon"@) {
                assert(eq_ic_char(name@[1], "Copper"@[1]));
                assert(eq_ic_char(name@[1], "Carbon"@[1]));
            }
        }
    }
    let mut presets = preset_materials();
    let third = presets.remove(2);
    let second = presets.remove(1);
    let first = presets.remove(0);
    if names_match(name, first.name.as_str()) {
        Some(first)
    } else if names_match(name, second.name.as_str()) {
        Some(second)
    } else if names_match(name, third.name.as_str()) {
        Some(third)
    } else {
        None
    }
}

/// The names of the built-in materials.
pub fn list_preset_names() -> (r: Vec<String>)
    ensures
        r@.len() == 3,
        r@[0]@ == "Copper"@,
        r@[1]@ == "Silicon"@,
        r@[2]@ == "Carbon"@,
{
    let mut out: Vec<String> = Vec::new();
    out.push(String::from_str("Copper"));
    out.push(String::from_str("Silicon"));
    out.push(String::from_str("Carbon"));
    out
}

/// A user-supplied material definition, not yet validated.
#[derive(Clone, Debug)]
pub struct CustomMaterialSpec {
    pub name: String,
    pub atomic_number: u8,
    pub density_g_cm3: i64,
}

impl CustomMaterialSpec {
    /// Validates the definition into a `Material`. Succeeds exactly
    /// when the name holds a visible character, the atomic number lies
    /// in [1, 100], and the density is strictly positive; otherwise
    /// says what was wrong.
    pub fn try_into_material(self) -> (r: Result<Material, String>)
        ensures
            r is Ok <==> (has_visible_char(self.name@) && 1 <= self.atomic_number <= 100
                && self.density_g_cm3 > 0),
            r matches Ok(m) ==> m.wf() && m.name@ == self.name@ && m.atomic_number
                == self.atomic_number && m.density_g_cm3 == self.density_g_cm3,
            !has_visible_char(self.name@) ==> (r matches Err(e) && e@
                == "Material name cannot be empty"@),
            has_visible_char(self.name@) && !(1 <= self.atomic_number <= 100) ==> (
            r matches Err(e) && e@ == "atomic_number must be between 1 and 100"@),
            has_visible_char(self.name@) && 1 <= self.atomic_number <= 100
                && self.density_g_cm3 <= 0 ==> (r matches Err(e) && e@
                == "density_g_cm3 must be > 0"@),
    {
        let chars = str_chars(self.name.as_str());
        let n = chars.len();
        let mut visible = false;
        let mut i: usize = 0;
        while i < n
            invariant
                i <= n,
                n == chars@.len(),
                chars@ == self.name@,
                visible == exists|k: int|
                    0 <= k < i && !is_whitespace_char(#[trigger] chars@[k]),
            decreases n - i,
        {
            let x = chars[i] as u32;
            let blank = (x >= 0x09 && x <= 0x0D) || x == 0x20 || x == 0x85 || x == 0xA0 || x
                == 0x1680 || (x >= 0x2000 && x <= 0x200A) || x == 0x2028 || x == 0x2029 || x
                == 0x202F || x == 0x205F || x == 0x3000;
            if !blank {
                visible = true;
            }
            i = i + 1;
        }
        if !visible {
            return Err(String::from_str("Material name cannot be empty"));
        }
        if self.atomic_number < 1 || self.atomic_number > 100 {
            return Err(String::from_str("atomic_number must be between 1 and 100"));
        }
        if self.density_g_cm3 <= 0 {
            return Err(String::from_str("density_g_cm3 must be > 0"));
        }
        Ok(
            Material {
                name: self.name,
                atomic_number: self.atomic_number,
                density_g_cm3: self.density_g_cm3,
            },
        )
    }
}

} // verus!
