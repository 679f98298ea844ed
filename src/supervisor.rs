//! How a finished engine run is judged, before its artifact is decoded.
//! Family A fails on a non-zero exit; family B often exits non-zero for
//! benign reasons, so its output is scanned for error lines instead. Either
//! way a run that left no artifact has failed.
use vstd::prelude::*;
use crate::diagnostics::{error_report, extract_ngspice_error};
use crate::text::{chars_of, push_all, string_of};

verus! {

fn concat(parts: &Vec<&str>) -> (r: String)
    ensures
        r@ == parts@.fold_left(Seq::<char>::empty(), |acc: Seq<char>, p: &str| acc + p@),
{
    let mut out: Vec<char> = Vec::new();
    let mut i: usize = 0;
    while i < parts.len()
        invariant
            i <= parts@.len(),
            out@ == parts@.take(i as int).fold_left(Seq::<char>::empty(), |acc: Seq<char>, p: &str| acc + p@),
        decreases parts@.len() - i,
    {
        push_all(&mut out, chars_of(parts[i]).as_slice());
        proof {
            let t = parts@.take(i + 1);
            assert(t.drop_last() =~= parts@.take(i as int));
            t.lemma_fold_left_split(Seq::<char>::empty(), |acc: Seq<char>, p: &str| acc + p@, i as int);
        }
        i = i + 1;
    }
    assert(parts@.take(parts@.len() as int) =~= parts@);
    string_of(out.as_slice())
}

/// The verdict on a run of the engine of family A: its exit status decides,
/// and the report carries its standard error and its log.
pub fn ltspice_outcome(exit_ok: bool, stderr: &str, log: &str, artifact_exists: bool) -> (r: Result<(), String>)
    ensures
        r is Ok <==> exit_ok && artifact_exists,
        !exit_ok ==> (r matches Err(m) && m@ == "LTspice failed: "@ + stderr@ + "\n"@ + log@),
        exit_ok && !artifact_exists ==> (r matches Err(m) && m@ == "No .raw file generated - simulation may have failed"@),
{
    if !exit_ok {
        let parts = vec!["LTspice failed: ", stderr, "\n", log];
        let m = concat(&parts);
        proof {
            reveal_with_fuel(Seq::fold_left, 5);
            assert(parts@.fold_left(Seq::<char>::empty(), |acc: Seq<char>, p: &str| acc + p@) =~= "LTspice failed: "@ + stderr@ + "\n"@ + log@);
        }
        return Err(m);
    }
    if !artifact_exists {
        return Err(string_of(chars_of("No .raw file generated - simulation may have failed").as_slice()));
    }
    Ok(())
}

/// The verdict on a run of the engine of family B: an error line in its
/// combined output decides, whatever its exit status.
pub fn ngspice_outcome(stdout: &str, stderr: &str, artifact_exists: bool) -> (r: Result<(), String>)
    ensures
        error_report(stdout@ + "\n"@ + stderr@) matches Some(e) ==> (r matches Err(m) && m@ == e),
        error_report(stdout@ + "\n"@ + stderr@) is None ==> (r is Ok <==> artifact_exists),
        error_report(stdout@ + "\n"@ + stderr@) is None && !artifact_exists ==> (r matches Err(m)
            && m@ == "No .raw file generated - simulation may have failed.\nStdout: "@ + stdout@ + "\nStderr: "@ + stderr@),
{
    let parts = vec![stdout, "\n", stderr];
    let combined = concat(&parts);
    proof {
        reveal_with_fuel(Seq::fold_left, 4);
        assert(parts@.fold_left(Seq::<char>::empty(), |acc: Seq<char>, p: &str| acc + p@) =~= stdout@ + "\n"@ + stderr@);
    }
    match extract_ngspice_error(combined.as_str()) {
        Some(e) => {
            return Err(e);
        },
        None => {},
    }
    if !artifact_exists {
        let parts = vec!["No .raw file generated - simulation may have failed.\nStdout: ", stdout, "\nStderr: ", stderr];
        let m = concat(&parts);
        proof {
            reveal_with_fuel(Seq::fold_left, 5);
            assert(parts@.fold_left(Seq::<char>::empty(), |acc: Seq<char>, p: &str| acc + p@) =~= "No .raw file generated - simulation may have failed.\nStdout: "@ + stdout@ + "\nStderr: "@ + stderr@);
        }
        return Err(m);
    }
    Ok(())
}

} // verus!
