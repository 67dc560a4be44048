//! Checks of the command line before any work starts, and the messages of the
//! errors the tool reports.
use vstd::prelude::*;

verus! {

/// The message for an input that is not a directory.
pub open spec fn not_a_directory_message(directory: Seq<char>) -> Seq<char> {
    "'"@ + directory + "' is not a directory"@
}

/// The message for a directory without a `.gitignore` and no other ignore file.
pub open spec fn no_gitignore_message(directory: Seq<char>) -> Seq<char> {
    "No .gitignore file found in '"@ + directory
        + "'. Use --ignore-file to specify a custom ignore file."@
}

/// The message for a custom ignore file that does not exist.
pub open spec fn missing_ignore_file_message(path: Seq<char>) -> Seq<char> {
    "Ignore file '"@ + path + "' does not exist"@
}

/// Checks the inputs in the order the tool reports them: the input must be a
/// directory; without a custom ignore file it must hold a `.gitignore`; a
/// custom ignore file must exist. `directory` is the path as given,
/// `canonical_directory` the same directory resolved.
pub fn validate_inputs(
    directory: &str,
    is_dir: bool,
    canonical_directory: &str,
    gitignore_exists: bool,
    ignore_file: Option<&str>,
    ignore_file_exists: bool,
) -> (r: Result<(), String>)
    ensures
        !is_dir ==> (r matches Err(e) && e@ == not_a_directory_message(directory@)),
        is_dir && ignore_file is None && !gitignore_exists ==> (r matches Err(e) && e@
            == no_gitignore_message(canonical_directory@)),
        is_dir && ignore_file is Some && !ignore_file_exists ==> (r matches Err(e) && e@
            == missing_ignore_file_message(ignore_file.unwrap()@)),
        is_dir && (ignore_file is None ==> gitignore_exists) && (ignore_file is Some
            ==> ignore_file_exists) ==> r is Ok,
{
    if !is_dir {
        let mut e = String::from_str("'");
        e.append(directory);
        e.append("' is not a directory");
        return Err(e);
    }
    match ignore_file {
        None => {
            if !gitignore_exists {
                let mut e = String::from_str("No .gitignore file found in '");
                e.append(canonical_directory);
                e.append("'. Use --ignore-file to specify a custom ignore file.");
                return Err(e);
            }
        },
        Some(path) => {
            if !ignore_file_exists {
                let mut e = String::from_str("Ignore file '");
                e.append(path);
                e.append("' does not exist");
                return Err(e);
            }
        },
    }
    Ok(())
}

/// The archive written when no output is given: the directory's name with
/// `.zip` appended. Fails when the directory has no name.
pub fn default_output_name(directory_name: Option<&str>) -> (r: Result<String, String>)
    ensures
        match directory_name {
            Some(n) => r matches Ok(s) && s@ == n@ + ".zip"@,
            None => r matches Err(e) && e@ == "Cannot determine directory name"@,
        },
{
    match directory_name {
        Some(n) => {
            let mut s = String::from_str(n);
            s.append(".zip");
            Ok(s)
        },
        None => Err(String::from_str("Cannot determine directory name")),
    }
}

/// Items joined with a separator between consecutive ones.
pub open spec fn joined(items: Seq<Seq<char>>, separator: Seq<char>) -> Seq<char>
    decreases items.len(),
{
    if items.len() == 0 {
        seq![]
    } else if items.len() == 1 {
        items[0]
    } else {
        joined(items.drop_last(), separator) + separator + items.last()
    }
}

/// The scan fails when any path could not be read; the error lists every
/// problem, separated by `; `.
pub fn scan_error(errors: &[String]) -> (r: Option<String>)
    ensures
        errors@.len() == 0 ==> r is None,
        errors@.len() > 0 ==> (r matches Some(m) && m@ == "Failed to scan input: "@ + joined(
            errors@.map_values(|e: String| e@),
            "; "@,
        )),
{
    if errors.len() == 0 {
        return None;
    }
    let ghost items = errors@.map_values(|e: String| e@);
    let mut m = String::from_str("Failed to scan input: ");
    let ghost start = m@;
    let mut i: usize = 0;
    while i < errors.len()
        invariant
            i <= errors@.len(),
            items == errors@.map_values(|e: String| e@),
            start == "Failed to scan input: "@,
            m@ == start + joined(items.take(i as int), "; "@),
        decreases errors@.len() - i,
    {
        let ghost next = items.take(i + 1);
        assert(next.drop_last() =~= items.take(i as int));
        assert(next.last() == errors@[i as int]@);
        if i > 0 {
            m.append("; ");
        } else {
            assert(items.take(0) =~= Seq::<Seq<char>>::empty());
        }
        m.append(errors[i].as_str());
        assert(m@ =~= start + joined(next, "; "@));
        i = i + 1;
    }
    assert(items.take(errors@.len() as int) =~= items);
    Some(m)
}

} // verus!
