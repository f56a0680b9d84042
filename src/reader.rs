//! What a DSL reader decides: which paths are DSL files, and what the lines
//! it read become.
use vstd::prelude::*;

verus! {

/// The extension of the last component of a path, if that has one.
pub uninterp spec fn path_extension(path: Seq<char>) -> Option<Seq<char>>;

/// Relies on `std::path::Path::extension` for the extension of the file name
/// of `path`, which is valid UTF-8 since it is part of a `str`.
#[verifier::external_body]
fn extension_of(path: &str) -> (r: Option<String>)
    ensures
        r matches Some(e) ==> path_extension(path@) == Some(e@),
        r is None ==> path_extension(path@) is None,
{
    match std::path::Path::new(path).extension() {
        Some(e) => e.to_str().map(String::from),
        None => None,
    }
}

/// Whether the file name in `filename` has the extension `dsl`.
pub fn is_dsl_file(filename: &str) -> (r: bool)
    ensures
        r == (path_extension(filename@) == Some("dsl"@)),
{
    match extension_of(filename) {
        Some(e) => e == String::from_str("dsl"),
        None => false,
    }
}

/// Accepts a path only when it names a DSL file.
pub fn check_dsl_file(filename: &str) -> (r: Result<(), &'static str>)
    ensures
        r is Ok <==> path_extension(filename@) == Some("dsl"@),
        r matches Err(e) ==> e@ == "Given file was not a DSL file"@,
{
    if is_dsl_file(filename) {
        Ok(())
    } else {
        Err("Given file was not a DSL file")
    }
}

/// Whether some line could not be decoded.
pub open spec fn has_undecodable(items: Seq<Option<String>>) -> bool {
    exists|i: int| 0 <= i < items.len() && items[i] is None
}

/// The lines of a DSL file from what reading it gave: `None` when the file
/// could not be opened, else one item per line, `None` for a line that could
/// not be decoded. Either failure makes the whole read fail.
pub fn collect_dsl_lines(read: Option<Vec<Option<String>>>) -> (r: Result<Vec<String>, &'static str>)
    ensures
        read is None ==> r is Err && r->Err_0@ == "Could not read the given DSL file"@,
        read is Some ==> (r is Err <==> has_undecodable(read->Some_0@)),
        read is Some && r is Err ==> r->Err_0@ == "Could not read all DSL lines"@,
        read is Some && r is Ok ==> r->Ok_0@.len() == read->Some_0@.len() && forall|i: int|
            0 <= i < read->Some_0@.len() ==> (#[trigger] r->Ok_0@[i])@ == read->Some_0@[i]->Some_0@,
{
    match &read {
        None => Err("Could not read the given DSL file"),
        Some(items) => {
            let mut lines: Vec<String> = Vec::new();
            let mut i: usize = 0;
            while i < items.len()
                invariant
                    i <= items.len(),
                    read == Some(*items),
                    lines@.len() == i,
                    forall|k: int| 0 <= k < i ==> (#[trigger] items@[k]) is Some,
                    forall|k: int| 0 <= k < i ==> (#[trigger] lines@[k])@ == items@[k]->Some_0@,
                decreases items.len() - i,
            {
                match &items[i] {
                    Some(l) => lines.push(l.clone()),
                    None => {
                        assert(items@[i as int] is None);
                        return Err("Could not read all DSL lines");
                    },
                }
                i += 1;
            }
            Ok(lines)
        },
    }
}

} // verus!
