//! What the engine is told to look for.

use crate::qjs::resolve::{
    is_root, is_segment, law_full_names_stand_for_themselves,
    law_relative_specifier_leads_from_the_directory, normalize_specifier, ModuleSources, Resolutions,
};
use crate::table::value_of;
use crate::text::joined;
use vstd::prelude::*;

verus! {

/// `normalize_specifier` gives for a relative specifier for which nothing is recorded the address in the
/// directory of the importing module, for `./`, and in the one above it, for `../`.
pub proof fn law_relative_specifier_is_looked_for_in_its_directory(
    resolutions: &Resolutions,
    sources: &ModuleSources,
    base: &str,
    name: &str,
    builtin_loaded: bool,
    r: String,
    address: (Seq<char>, Seq<char>, Seq<char>),
    dirs: Seq<Seq<char>>,
    file: Seq<char>,
    t: Seq<char>,
)
    requires
        call_ensures(normalize_specifier, (resolutions, sources, base, name, builtin_loaded), r),
        is_root(address.0, address.1, address.2),
        dirs.len() > 0,
        forall|i: int| 0 <= i < dirs.len() ==> is_segment(#[trigger] dirs[i]),
        is_segment(file),
        is_segment(t),
        base@ == address.0 + "/"@ + joined(dirs, "/"@) + "/"@ + file,
        value_of(resolutions@, (base@, name@)) is None,
        !(address.0 + "/"@ + joined(dirs.push(t), "/"@)).contains('\0'),
        !(address.0 + "/"@ + joined(dirs.drop_last().push(t), "/"@)).contains('\0'),
    ensures
        name@ == "./"@ + t ==> r@ == address.0 + "/"@ + joined(dirs.push(t), "/"@),
        name@ == "../"@ + t ==> r@ == address.0 + "/"@ + joined(dirs.drop_last().push(t), "/"@),
{
    law_relative_specifier_leads_from_the_directory(
        resolutions@,
        sources@,
        address,
        dirs,
        file,
        t,
        builtin_loaded,
    );
}

/// `normalize_specifier` gives a name that begins with `/`, or a name with a scheme, as it is, where nothing
/// is recorded for it.
pub proof fn law_full_name_is_looked_for_as_it_is(
    resolutions: &Resolutions,
    sources: &ModuleSources,
    base: &str,
    name: &str,
    builtin_loaded: bool,
    r: String,
)
    requires
        call_ensures(normalize_specifier, (resolutions, sources, base, name, builtin_loaded), r),
        name@.len() > 0,
        name@[0] == '/' || name@[0] != '.' && name@.contains(':'),
        forall|j: int| 0 <= j < resolutions@.len() ==> (#[trigger] resolutions@[j]).0.1 != name@,
    ensures
        r@ == name@,
{
    law_full_names_stand_for_themselves(resolutions@, sources@, base@, name@, builtin_loaded);
}

} // verus!
