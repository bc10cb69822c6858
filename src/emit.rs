use vstd::prelude::*;

use crate::names::{pkg_names, Package};

verus! {

/// The elements of `parts` with `sep` between each two.
pub open spec fn join(parts: Seq<Seq<char>>, sep: Seq<char>) -> Seq<char>
    decreases parts.len(),
{
    if parts.len() == 0 {
        Seq::empty()
    } else if parts.len() == 1 {
        parts[0]
    } else {
        join(parts.drop_last(), sep) + sep + parts.last()
    }
}

/// Joins the names of `packages` with `sep`.
pub fn join_names(packages: &Vec<Package>, sep: &str) -> (r: String)
    ensures
        r@ == join(pkg_names(packages@), sep@),
{
    let mut r = String::new();
    let mut i: usize = 0;
    while i < packages.len()
        invariant
            i <= packages.len(),
            r@ == join(pkg_names(packages@).take(i as int), sep@),
        decreases packages.len() - i,
    {
        let ghost names = pkg_names(packages@);
        assert(names.take(i + 1).drop_last() =~= names.take(i as int));
        if i > 0 {
            r.append(sep);
        } else {
            assert(names.take(1)[0] == names[0]);
        }
        r.append(packages[i].name.as_str());
        assert(names.take(i + 1).last() == names[i as int]);
        i = i + 1;
    }
    assert(pkg_names(packages@).take(i as int) =~= pkg_names(packages@));
    r
}

/// The expression of a nix FHS environment, made of `packages`, that runs `run`.
pub open spec fn fhs_spec(run: Seq<char>, packages: Seq<Seq<char>>) -> Seq<char> {
    "with import <nixpkgs> {};\n  buildFHSUserEnv {\n    name = \"fhs\";\n    targetPkgs = p: with p; [ \n      "@
        + join(packages, "\n      "@) + " \n    ];\n    runScript = \""@ + run
        + "\";\n  }"@
}

/// Builds the nix expression of an FHS environment that holds `packages` and
/// runs the program at `run`.
pub fn fhs_shell(run: &str, packages: &Vec<Package>) -> (r: String)
    ensures
        r@ == fhs_spec(run@, pkg_names(packages@)),
{
    let mut r = String::from_str(
        "with import <nixpkgs> {};\n  buildFHSUserEnv {\n    name = \"fhs\";\n    targetPkgs = p: with p; [ \n      ",
    );
    let names = join_names(packages, "\n      ");
    r.append(names.as_str());
    r.append(" \n    ];\n    runScript = \"");
    r.append(run);
    r.append("\";\n  }");
    r
}

/// The shell command that builds the environment `expression` and starts it.
pub fn launcher_command(expression: &str) -> (r: String)
    ensures
        r@ == "$(nix-build --no-out-link -E '"@ + expression@ + "')/bin/fhs"@,
{
    let mut r = String::from_str("$(nix-build --no-out-link -E '");
    r.append(expression);
    r.append("')/bin/fhs");
    r
}

/// The text of a bash script that runs `command`.
pub fn bash_script(command: &str) -> (r: String)
    ensures
        r@ == "#!/usr/bin/env bash\n\n"@ + command@,
{
    let mut r = String::from_str("#!/usr/bin/env bash\n\n");
    r.append(command);
    r
}

/// The listing of packages shown to the user: `[ a b c ]`.
pub fn package_listing(packages: &Vec<Package>) -> (r: String)
    ensures
        r@ == "[ "@ + join(pkg_names(packages@), " "@) + " ]"@,
{
    let mut r = String::from_str("[ ");
    let names = join_names(packages, " ");
    r.append(names.as_str());
    r.append(" ]");
    r
}

impl Package {
    /// The package of a nix attribute's output, named `attr.output`.
    pub fn from_origin(attr: &str, output: &str) -> (r: Package)
        ensures
            r.name@ == attr@ + "."@ + output@,
    {
        let mut name = String::from_str(attr);
        name.append(".");
        name.append(output);
        Package { name }
    }
}

} // verus!
