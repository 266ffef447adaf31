//! What rewriting gives for a module that exports an expression by default.

use crate::jsc::rewrite::{rewrite_es_module, rewritten, string_triples, RewrittenModule};
use crate::jsc::rewrite_shapes::{is_stripped, law_module_with_a_default_export};
use crate::text::{contains_text, strings};
use crate::text_laws::law_replaced;
use vstd::prelude::*;

verus! {

/// `rewrite_es_module` accepts a module that exports an expression by default, and its script binds that very
/// expression and exports it under the name `default`.
pub proof fn law_rewritten_default_export(src: &str, r: Option<RewrittenModule>, e: Seq<char>)
    requires
        call_ensures(rewrite_es_module, (src,), r),
        src@ == "export default "@ + e,
        is_stripped(e),
        !e.contains('\n'),
        !e.contains('/'),
    ensures
        r matches Some(m) && {
            let script = "const __v8jsc_default = "@ + e + "\n__ns[\"default\"] = __v8jsc_default;\n"@;
            &&& !contains_text(script, "import.meta"@) ==> m.body@ == script
            &&& m.export_names@.len() == 1 && m.export_names@[0]@ == "default"@
            &&& m.imports@.len() == 0
            &&& m.reexports@.len() == 0
        },
{
    reveal_strlit("import.meta");
    law_module_with_a_default_export(e);
    assert(rewritten(src@) is Some);
    assert(r is Some);
    let m = r->0;
    assert(rewritten(src@) == Some(m@));
    assert(m@.export_names.len() == 1);
    let script = "const __v8jsc_default = "@ + e + "\n__ns[\"default\"] = __v8jsc_default;\n"@;
    law_replaced(script, "import.meta"@, seq![], "__v8jsc_meta"@);
    assert(m@.export_names == strings(m.export_names@));
    assert(m@.export_names[0] == m.export_names@[0]@);
    assert(m@.imports == strings(m.imports@));
    assert(m@.reexports == string_triples(m.reexports@));
}

} // verus!
