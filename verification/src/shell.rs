//! Shell-command quoting: POSIX single-quote escaping, the `run-as`
//! wrapping of commands aimed at an app's sandbox, activity-launch argument
//! quoting, and the package-manager output conventions.

use vstd::prelude::*;

use crate::error::DeviceError;
use crate::strutil::{
    sort_strings, spec_lines, spec_replace, spec_starts_with, spec_str_le, split_lines, str_le,
    str_replace, str_starts_with, views_of,
};

verus! {

/// A character the shell accepts bare: letters, digits and `_@%+=:,./-`.
pub open spec fn is_shell_safe_char(c: char) -> bool {
    let u = (c as u32) as int;
    ||| 0x41 <= u && u <= 0x5A
    ||| 0x61 <= u && u <= 0x7A
    ||| 0x30 <= u && u <= 0x39
    ||| c == '_'
    ||| c == '@'
    ||| c == '%'
    ||| c == '+'
    ||| c == '='
    ||| c == ':'
    ||| c == ','
    ||| c == '.'
    ||| c == '/'
    ||| c == '-'
}

/// The argument holds a character the shell would interpret, so it must be
/// quoted.
pub open spec fn spec_needs_quoting(s: Seq<char>) -> bool {
    exists|i: int| 0 <= i < s.len() && !is_shell_safe_char(#[trigger] s[i])
}

/// POSIX single-quote escaping: every `'` becomes `'"'"'`.
pub open spec fn spec_escaped(s: Seq<char>) -> Seq<char> {
    spec_replace(s, "'"@, "'\"'\"'"@)
}

/// Whether `s` holds any character outside the shell-safe set.
pub fn needs_quoting(s: &str) -> (r: bool)
    ensures
        r == spec_needs_quoting(s@),
{
    let len = s.unicode_len();
    let mut i: usize = 0;
    while i < len
        invariant
            len == s@.len(),
            0 <= i <= len,
            forall|j: int| 0 <= j < i ==> is_shell_safe_char(#[trigger] s@[j]),
        decreases len - i,
    {
        let c = s.get_char(i);
        let u = c as u32;
        let safe = (u >= 0x41 && u <= 0x5A) || (u >= 0x61 && u <= 0x7A) || (u >= 0x30 && u <= 0x39)
            || c == '_' || c == '@' || c == '%' || c == '+' || c == '=' || c == ':' || c == ','
            || c == '.' || c == '/' || c == '-';
        if !safe {
            proof {
                assert(!is_shell_safe_char(s@[i as int]));
            }
            return true;
        }
        i = i + 1;
    }
    false
}

/// Escapes `s` for the shell by POSIX single-quote rules.
pub fn escape(s: &str) -> (r: String)
    ensures
        r@ == spec_escaped(s@),
{
    str_replace(s, "'", "'\"'\"'")
}

/// The command starts and ends with the same kind of quote.
pub open spec fn spec_has_outer_quotes(cmd: Seq<char>) -> bool {
    cmd.len() >= 1 && ((cmd[0] == '"' && cmd.last() == '"') || (cmd[0] == '\'' && cmd.last()
        == '\''))
}

/// The service string that runs `cmd` in the device shell.
pub open spec fn spec_shell_service(cmd: Seq<char>) -> Seq<char> {
    "shell:"@ + cmd
}

/// The service string that runs `arg` in the device shell under `pkg`.
pub open spec fn spec_run_as_service(pkg: Seq<char>, arg: Seq<char>) -> Seq<char> {
    "shell:run-as "@ + pkg + " "@ + arg
}

/// The full service string for a shell command, with `run-as` wrapping:
/// commands that already invoke `su` bypass the wrapping; a command in
/// outer quotes is passed through; one with unsafe characters is escaped;
/// any other is wrapped in double quotes.  Nothing is produced when
/// wrapping is asked for without a package.
pub open spec fn spec_shell_command_as(
    cmd: Seq<char>,
    pkg: Option<Seq<char>>,
    enable_run_as: bool,
) -> Option<Seq<char>> {
    if spec_starts_with(cmd, "su"@) {
        Some(spec_shell_service(cmd))
    } else if enable_run_as {
        match pkg {
            None => None,
            Some(p) => if spec_has_outer_quotes(cmd) {
                Some(spec_run_as_service(p, cmd))
            } else if spec_needs_quoting(cmd) {
                Some(spec_run_as_service(p, spec_escaped(cmd)))
            } else {
                Some(spec_run_as_service(p, "\""@ + cmd + "\""@))
            },
        }
    } else {
        Some(spec_shell_service(cmd))
    }
}

/// Builds the service string that runs `cmd`, wrapping it with `run-as`
/// when asked; fails exactly when wrapping is asked for and no package is
/// configured.
pub fn shell_command_as(cmd: &str, run_as_package: Option<&String>, enable_run_as: bool) -> (r:
    Result<String, DeviceError>)
    ensures
        ({
            let pkg = match run_as_package {
                Some(p) => Some(p@),
                None => None,
            };
            match spec_shell_command_as(cmd@, pkg, enable_run_as) {
                Some(s) => r matches Ok(v) && v@ == s,
                None => r matches Err(e) && e == DeviceError::MissingPackage,
            }
        }),
{
    if str_starts_with(cmd, "su") {
        return Ok(String::from_str("shell:").concat(cmd));
    }
    if !enable_run_as {
        return Ok(String::from_str("shell:").concat(cmd));
    }
    let pkg = match run_as_package {
        Some(p) => p,
        None => {
            return Err(DeviceError::MissingPackage);
        },
    };
    let base = String::from_str("shell:run-as ").concat(pkg.as_str()).concat(" ");
    let len = cmd.unicode_len();
    let quoted = len >= 1 && {
        let f = cmd.get_char(0);
        let l = cmd.get_char(len - 1);
        (f == '"' && l == '"') || (f == '\'' && l == '\'')
    };
    if quoted {
        let r = base.concat(cmd);
        proof {
            assert(r@ =~= spec_run_as_service(pkg@, cmd@));
        }
        Ok(r)
    } else if needs_quoting(cmd) {
        let esc = escape(cmd);
        let r = base.concat(esc.as_str());
        proof {
            assert(r@ =~= spec_run_as_service(pkg@, spec_escaped(cmd@)));
        }
        Ok(r)
    } else {
        let r = base.concat("\"").concat(cmd).concat("\"");
        proof {
            assert(r@ =~= spec_run_as_service(pkg@, "\""@ + cmd@ + "\""@));
        }
        Ok(r)
    }
}

/// One launch argument as it appears on the `am start` line: escaped, and
/// wrapped in double quotes when it holds unsafe characters.
pub open spec fn spec_launch_arg(a: Seq<char>) -> Seq<char> {
    if spec_needs_quoting(a) {
        "\""@ + spec_escaped(a) + "\""@
    } else {
        spec_escaped(a)
    }
}

/// The launch arguments rendered after the activity, each preceded by a
/// space.
pub open spec fn spec_launch_args(args: Seq<Seq<char>>) -> Seq<char>
    decreases args.len(),
{
    if args.len() == 0 {
        Seq::empty()
    } else {
        " "@ + spec_launch_arg(args[0]) + spec_launch_args(args.drop_first())
    }
}

/// The full `am start` command that launches `activity` of `package` with
/// the given arguments.
pub open spec fn spec_launch_command(
    package: Seq<char>,
    activity: Seq<char>,
    args: Seq<Seq<char>>,
) -> Seq<char> {
    "am start -W -n "@ + package + "/"@ + activity + spec_launch_args(args)
}

/// Builds the `am start -W -n <package>/<activity> <args...>` command,
/// quoting each argument as the shell needs.
pub fn launch_command(package: &str, activity: &str, args: &Vec<String>) -> (r: String)
    ensures
        r@ == spec_launch_command(package@, activity@, args.deep_view()),
{
    let mut am = String::from_str("am start -W -n ").concat(package).concat("/").concat(activity);
    let ghost gargs = args.deep_view();
    let n = args.len();
    let mut i: usize = 0;
    proof {
        assert(gargs.skip(0) =~= gargs);
        assert(args.deep_view().len() == args@.len());
    }
    while i < n
        invariant
            n == args@.len(),
            gargs == args.deep_view(),
            args@.len() == gargs.len(),
            forall|j: int| 0 <= j < n ==> gargs[j] == args@[j]@,
            0 <= i <= n,
            spec_launch_command(package@, activity@, gargs) == am@ + spec_launch_args(
                gargs.skip(i as int),
            ),
        decreases n - i,
    {
        let arg = &args[i];
        proof {
            assert(gargs.skip(i as int)[0] == gargs[i as int]);
            assert(gargs.skip(i as int).drop_first() =~= gargs.skip(i as int + 1));
        }
        let rendered: String = if needs_quoting(arg.as_str()) {
            let esc = escape(arg.as_str());
            let q = String::from_str("\"").concat(esc.as_str()).concat("\"");
            proof {
                assert(q@ =~= spec_launch_arg(gargs[i as int]));
            }
            q
        } else {
            let esc = escape(arg.as_str());
            proof {
                assert(esc@ =~= spec_launch_arg(gargs[i as int]));
            }
            esc
        };
        am = am.concat(" ").concat(rendered.as_str());
        proof {
            assert(am@ + spec_launch_args(gargs.skip(i as int + 1)) =~= spec_launch_command(
                package@,
                activity@,
                gargs,
            ));
        }
        i = i + 1;
    }
    proof {
        assert(gargs.skip(n as int) =~= Seq::<Seq<char>>::empty());
        assert(am@ + Seq::<char>::empty() =~= am@);
    }
    am
}

/// The `pm install` command with its optional reinstall and
/// runtime-permission flags.
pub open spec fn spec_install_command(
    reinstall: bool,
    grant_runtime_permissions: bool,
    path: Seq<char>,
) -> Seq<char> {
    "pm install"@ + (if reinstall {
        " -r"@
    } else {
        Seq::<char>::empty()
    }) + (if grant_runtime_permissions {
        " -g"@
    } else {
        Seq::<char>::empty()
    }) + " "@ + path
}

/// Builds the `pm install` command for the staged package file.
pub fn install_command(reinstall: bool, grant_runtime_permissions: bool, path: &str) -> (r: String)
    ensures
        r@ == spec_install_command(reinstall, grant_runtime_permissions, path@),
{
    let mut cmd = String::from_str("pm install");
    if reinstall {
        cmd = cmd.concat(" -r");
    }
    if grant_runtime_permissions {
        cmd = cmd.concat(" -g");
    }
    let r = cmd.concat(" ").concat(path);
    proof {
        assert(r@ =~= spec_install_command(reinstall, grant_runtime_permissions, path@));
    }
    r
}

/// Interprets package-manager output: anything that does not begin with
/// `Success` is a package-manager error carrying the full output.
pub fn package_manager_outcome(output: String) -> (r: Result<String, DeviceError>)
    ensures
        spec_starts_with(output@, "Success"@) ==> (r matches Ok(s) && s@ == output@),
        !spec_starts_with(output@, "Success"@) ==> (r matches Err(e) && e
            == DeviceError::PackageManagerError(output)),
{
    if str_starts_with(output.as_str(), "Success") {
        Ok(output)
    } else {
        Err(DeviceError::PackageManagerError(output))
    }
}

/// The package names in `pm list packages` output: one per line that
/// begins with `package:`, with that prefix removed.
pub open spec fn spec_package_entries(lines: Seq<Seq<char>>) -> Seq<Seq<char>>
    decreases lines.len(),
{
    if lines.len() == 0 {
        Seq::empty()
    } else {
        spec_package_entries(lines.drop_last()) + (if spec_starts_with(
            lines.last(),
            "package:"@,
        ) {
            seq![lines.last().skip(8)]
        } else {
            Seq::<Seq<char>>::empty()
        })
    }
}

/// Extracts the package names from `pm list packages` output and sorts
/// them: the result is ordered and holds exactly the listed names.
pub fn parse_package_list(output: &str) -> (r: Vec<String>)
    ensures
        views_of(r@).to_multiset() == spec_package_entries(spec_lines(output@)).to_multiset(),
        forall|i: int, j: int|
            0 <= i < j < r@.len() ==> spec_str_le(#[trigger] r@[i]@, #[trigger] r@[j]@),
{
    proof {
        reveal_strlit("package:");
    }
    let lines = split_lines(output);
    let ghost glines = spec_lines(output@);
    let n = lines.len();
    let mut found: Vec<String> = Vec::new();
    let mut i: usize = 0;
    proof {
        assert(lines.deep_view().len() == lines@.len());
        assert(glines.take(0) =~= Seq::<Seq<char>>::empty());
        assert(views_of(found@) =~= spec_package_entries(glines.take(0)));
    }
    while i < n
        invariant
            n == lines@.len(),
            glines == spec_lines(output@),
            lines.deep_view() == glines,
            lines@.len() == glines.len(),
            forall|j: int| 0 <= j < n ==> glines[j] == lines@[j]@,
            0 <= i <= n,
            views_of(found@) == spec_package_entries(glines.take(i as int)),
        decreases n - i,
    {
        let line = &lines[i];
        proof {
            reveal_strlit("package:");
            assert(glines.take(i as int + 1).drop_last() =~= glines.take(i as int));
            assert(glines.take(i as int + 1).last() == glines[i as int]);
        }
        if str_starts_with(line.as_str(), "package:") {
            let llen = line.as_str().unicode_len();
            let name = line.as_str().substring_char(8, llen).to_owned();
            let ghost old_found = found@;
            proof {
                assert(name@ =~= glines[i as int].skip(8));
            }
            found.push(name);
            proof {
                assert(views_of(found@) =~= views_of(old_found) + seq![glines[i as int].skip(8)]);
                assert(views_of(found@) =~= spec_package_entries(glines.take(i as int + 1)));
            }
        } else {
            proof {
                assert(views_of(found@) + Seq::<Seq<char>>::empty() =~= views_of(found@));
                assert(views_of(found@) =~= spec_package_entries(glines.take(i as int + 1)));
            }
        }
        i = i + 1;
    }
    proof {
        assert(glines.take(n as int) =~= glines);
    }
    sort_strings(found)
}

} // verus!
