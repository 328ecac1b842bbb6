//! The choice of available runtimes for the embedded remap language.

use vstd::prelude::*;
use vstd::string::StringExecFns;

verus! {

/// Which engine runs a compiled program.
#[derive(Debug, Clone, Copy, PartialEq, Eq, Structural)]
pub enum VrlRuntime {
    Ast,
    Vectorized,
    Llvm,
}

impl Default for VrlRuntime {
    /// The tree-walking engine is the default.
    fn default() -> (r: Self)
        ensures
            r == VrlRuntime::Ast,
    {
        VrlRuntime::Ast
    }
}

impl VrlRuntime {
    /// Parses a runtime name.
    pub fn from_str(s: &str) -> (r: Result<Self, String>)
        ensures
            s@ == "ast"@ ==> r == Ok::<VrlRuntime, String>(VrlRuntime::Ast),
            s@ == "vectorized"@ ==> r == Ok::<VrlRuntime, String>(VrlRuntime::Vectorized),
            s@ == "llvm"@ ==> r == Ok::<VrlRuntime, String>(VrlRuntime::Llvm),
            s@ != "ast"@ && s@ != "vectorized"@ && s@ != "llvm"@ ==> (r matches Err(e) && e@
                == "runtime must be ast or vectorized or llvm."@),
    {
        let owned: String = s.to_owned();
        proof {
            reveal_strlit("ast");
            reveal_strlit("vectorized");
            reveal_strlit("llvm");
            assert("ast"@.len() == 3 && "vectorized"@.len() == 10 && "llvm"@.len() == 4);
            assert("ast"@ != "vectorized"@ && "ast"@ != "llvm"@ && "vectorized"@ != "llvm"@);
        }
        if String::from_str("ast") == owned {
            Ok(VrlRuntime::Ast)
        } else if String::from_str("vectorized") == owned {
            Ok(VrlRuntime::Vectorized)
        } else if String::from_str("llvm") == owned {
            Ok(VrlRuntime::Llvm)
        } else {
            Err(String::from_str("runtime must be ast or vectorized or llvm."))
        }
    }

    /// The runtime's name.
    pub fn as_str(&self) -> (r: String)
        ensures
            *self == VrlRuntime::Ast ==> r@ == "ast"@,
            *self == VrlRuntime::Vectorized ==> r@ == "vectorized"@,
            *self == VrlRuntime::Llvm ==> r@ == "llvm"@,
    {
        match self {
            VrlRuntime::Ast => String::from_str("ast"),
            VrlRuntime::Vectorized => String::from_str("vectorized"),
            VrlRuntime::Llvm => String::from_str("llvm"),
        }
    }
}

} // verus!
