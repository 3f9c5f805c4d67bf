//! The FHS-tree boundary: which top-level entries a resolved FHS tree may
//! carry, and the package-list form of an environment definition.

use vstd::prelude::*;
use crate::strutil::{name_in, contains_name};
use crate::envprep::{spec_join, join_with};

verus! {

/// The top-level entries an FHS tree may carry, any subset of them.
pub open spec fn allowed_fhs_entries() -> Seq<Seq<char>> {
    seq!["bin"@, "etc"@, "lib"@, "lib32"@, "lib64"@, "sbin"@, "usr"@, "libexec"@]
}

/// The allowed top-level entries as values.
pub fn allowed_fhs_entry_names() -> (r: Vec<String>)
    ensures
        r@.map_values(|s: String| s@) == allowed_fhs_entries(),
{
    let mut r: Vec<String> = Vec::new();
    r.push("bin".to_owned());
    r.push("etc".to_owned());
    r.push("lib".to_owned());
    r.push("lib32".to_owned());
    r.push("lib64".to_owned());
    r.push("sbin".to_owned());
    r.push("usr".to_owned());
    r.push("libexec".to_owned());
    assert(r@.map_values(|s: String| s@) =~~= allowed_fhs_entries());
    r
}

/// Validates a resolved FHS tree's top level: returns nothing when every
/// entry is allowed, else the position of the first entry that is not.
pub fn first_invalid_entry(names: &Vec<String>) -> (r: Option<usize>)
    ensures
        r is None <==> forall|k: int|
            0 <= k < names@.len() ==> name_in(
                allowed_fhs_entries(),
                (#[trigger] names@[k])@,
            ),
        (r matches Some(i) ==> {
            &&& i < names@.len()
            &&& !name_in(allowed_fhs_entries(), names@[i as int]@)
            &&& forall|k: int|
                0 <= k < i ==> name_in(allowed_fhs_entries(), (#[trigger] names@[k])@)
        }),
{
    let allowed = allowed_fhs_entry_names();
    let mut i: usize = 0;
    while i < names.len()
        invariant
            i <= names.len(),
            allowed@.map_values(|s: String| s@) == allowed_fhs_entries(),
            forall|k: int|
                0 <= k < i ==> name_in(allowed_fhs_entries(), (#[trigger] names@[k])@),
        decreases names.len() - i,
    {
        if !contains_name(&allowed, &names[i]) {
            return Some(i);
        }
        i = i + 1;
    }
    None
}

/// The text in front of the package list of a generated environment
/// definition.
pub open spec fn definition_prefix() -> Seq<char> {
    "\n            { pkgs ? import <nixpkgs> {} }:\n            (pkgs.buildFHSUserEnv {\n                name = \"fhsenv\";\n                targetPkgs = pkgs: (with pkgs; [\n"@
}

/// The text after the package list of a generated environment definition.
pub open spec fn definition_suffix() -> Seq<char> {
    "\n]);\n            }).env\n        "@
}

/// Each package identifier on its own line, parenthesized.
pub open spec fn spec_package_lines(pkgs: Seq<Seq<char>>) -> Seq<Seq<char>>
    decreases pkgs.len(),
{
    if pkgs.len() == 0 {
        Seq::empty()
    } else {
        seq!["("@ + pkgs[0] + ")"@] + spec_package_lines(pkgs.drop_first())
    }
}

proof fn lemma_package_lines_push(pkgs: Seq<Seq<char>>, p: Seq<char>)
    ensures
        spec_package_lines(pkgs.push(p)) == spec_package_lines(pkgs).push("("@ + p + ")"@),
    decreases pkgs.len(),
{
    reveal_with_fuel(spec_package_lines, 3);
    if pkgs.len() == 0 {
        assert(pkgs.push(p)[0] == p);
        assert(pkgs.push(p).drop_first() =~= Seq::empty());
        assert(spec_package_lines(pkgs.push(p)) =~~= spec_package_lines(pkgs).push(
            "("@ + p + ")"@,
        ));
    } else {
        assert(pkgs.push(p)[0] == pkgs[0]);
        assert(pkgs.push(p).drop_first() =~= pkgs.drop_first().push(p));
        lemma_package_lines_push(pkgs.drop_first(), p);
        assert(spec_package_lines(pkgs.push(p)) =~~= spec_package_lines(pkgs).push(
            "("@ + p + ")"@,
        ));
    }
}

/// The environment definition generated from a package list: the template
/// around the parenthesized package identifiers, one per line.
pub open spec fn spec_definition(pkgs: Seq<Seq<char>>) -> Seq<char> {
    definition_prefix() + spec_join(spec_package_lines(pkgs), seq!['\n']) + definition_suffix()
}

/// Generates the environment definition for a nonempty package list, to be
/// handed to the external resolver.
pub fn package_definition(packages: &Vec<String>) -> (r: String)
    ensures
        r@ == spec_definition(packages@.map_values(|p: String| p@)),
{
    broadcast use vstd::prelude::Seq::lemma_push_map_commute;

    proof {
        reveal_strlit("\n");
        assert("\n"@ =~= seq!['\n']);
    }
    let ghost pviews = packages@.map_values(|p: String| p@);
    let mut lines: Vec<String> = Vec::new();
    let mut i: usize = 0;
    while i < packages.len()
        invariant
            i <= packages.len(),
            pviews == packages@.map_values(|p: String| p@),
            lines@.map_values(|s: String| s@) == spec_package_lines(pviews.subrange(0, i as int)),
        decreases packages.len() - i,
    {
        let mut line: String = "(".to_owned();
        line.append(packages[i].as_str());
        line.append(")");
        let ghost prev = lines@;
        let ghost line_text = line@;
        lines.push(line);
        proof {
            assert(pviews.subrange(0, i + 1) =~= pviews.subrange(0, i as int).push(
                pviews[i as int],
            ));
            lemma_package_lines_push(pviews.subrange(0, i as int), pviews[i as int]);
            assert(line_text == "("@ + pviews[i as int] + ")"@);
            assert(lines@.map_values(|s: String| s@) =~~= prev.map_values(|s: String| s@).push(
                line_text,
            ));
        }
        i = i + 1;
    }
    proof {
        assert(pviews.subrange(0, packages@.len() as int) =~= pviews);
    }
    let joined = join_with(&lines, "\n");
    let mut r: String = "\n            { pkgs ? import <nixpkgs> {} }:\n            (pkgs.buildFHSUserEnv {\n                name = \"fhsenv\";\n                targetPkgs = pkgs: (with pkgs; [\n".to_owned();
    r.append(joined.as_str());
    r.append("\n]);\n            }).env\n        ");
    r
}

} // verus!
