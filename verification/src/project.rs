use vstd::prelude::*;
use vstd::string::StringExecFns;

use crate::config::{
    find_val, find_val_s, lemma_abs_array, lemma_abs_not_array, push_char, str_eq, view_list,
    ConfigValue, SpecValue,
};
use crate::errors::Error;

verus! {

/// A revision of the C language standard.
#[derive(Copy, Clone, Debug, PartialEq, Eq, Structural)]
pub enum Std {
    C89,
    C99,
    C11,
    C17,
    C23,
}

/// A C dialect: a standard revision plus the GNU-extensions flag.
#[derive(Copy, Clone, Debug, PartialEq, Eq, Structural)]
pub struct Standard {
    pub dialect: Std,
    pub gnu_extensions: bool,
}

/// What artifact the build produces.
#[derive(Copy, Clone, Debug, PartialEq, Eq, Structural)]
pub enum ProjectType {
    Binary,
    Shared,
    Static,
}

/// When the build-script hook runs relative to compilation.
#[derive(Copy, Clone, Debug, PartialEq, Eq, Structural)]
pub enum BuildScript {
    Before,
    Repeat,
    After,
    Absent,
}

/// The validated, immutable project descriptor.
#[derive(Debug)]
pub struct Project {
    pub name: String,
    pub version: String,
    pub standard: Standard,
    pub compiler: String,
    pub flags: Vec<String>,
    pub ptype: ProjectType,
    pub build_script: BuildScript,
}

/// The views of a list of strings, in order.
pub open spec fn strings_view(v: Seq<String>) -> Seq<Seq<char>> {
    Seq::new(v.len(), |i: int| v[i]@)
}

/// The mathematical value of a project descriptor.
pub struct ProjectS {
    pub name: Seq<char>,
    pub version: Seq<char>,
    pub standard: Standard,
    pub compiler: Seq<char>,
    pub flags: Seq<Seq<char>>,
    pub ptype: ProjectType,
    pub build_script: BuildScript,
}

impl View for Project {
    type V = ProjectS;

    open spec fn view(&self) -> ProjectS {
        ProjectS {
            name: self.name@,
            version: self.version@,
            standard: self.standard,
            compiler: self.compiler@,
            flags: strings_view(self.flags@),
            ptype: self.ptype,
            build_script: self.build_script,
        }
    }
}

/// The `-std=` token of a dialect; year 23 renders as `2x`.
pub open spec fn std_token(s: Standard) -> Seq<char> {
    if s.gnu_extensions {
        match s.dialect {
            Std::C89 => "gnu89"@,
            Std::C99 => "gnu99"@,
            Std::C11 => "gnu11"@,
            Std::C17 => "gnu17"@,
            Std::C23 => "gnu2x"@,
        }
    } else {
        match s.dialect {
            Std::C89 => "c89"@,
            Std::C99 => "c99"@,
            Std::C11 => "c11"@,
            Std::C17 => "c17"@,
            Std::C23 => "c2x"@,
        }
    }
}

/// Renders a dialect to its `-std=` token text.
pub fn render_standard(s: Standard) -> (r: String)
    ensures
        r@ == std_token(s),
{
    if s.gnu_extensions {
        match s.dialect {
            Std::C89 => "gnu89".to_owned(),
            Std::C99 => "gnu99".to_owned(),
            Std::C11 => "gnu11".to_owned(),
            Std::C17 => "gnu17".to_owned(),
            Std::C23 => "gnu2x".to_owned(),
        }
    } else {
        match s.dialect {
            Std::C89 => "c89".to_owned(),
            Std::C99 => "c99".to_owned(),
            Std::C11 => "c11".to_owned(),
            Std::C17 => "c17".to_owned(),
            Std::C23 => "c2x".to_owned(),
        }
    }
}

/// The error of a key whose body is not a list of exactly one identifier,
/// and of a required key that is absent.
pub open spec fn msg_single(key: Seq<char>) -> Seq<char> {
    "Key `"@ + key + "` must be a single string."@
}

/// The error of a `flags` key whose body is not a list.
pub open spec fn msg_flags_array() -> Seq<char> {
    "Key `flags` must be an array."@
}

/// The error of a flag that is not a bare identifier.
pub open spec fn msg_flag_ident() -> Seq<char> {
    "Each flag must be an identifier."@
}

/// The error of an unrecognized `standard` token, enumerating the valid
/// ones.
pub open spec fn msg_bad_std(raw: Seq<char>) -> Seq<char> {
    "`"@ + raw
        + "` is not a valid C standard. Valid standards are: ansi, c89, gnu89, c99, gnu99, c11, gnu11, c17, gnu17, c23, gnu23"@
}

/// The error of an unrecognized `type` token, enumerating the valid ones.
pub open spec fn msg_bad_type(t: Seq<char>) -> Seq<char> {
    "`"@ + t + "` is not a valid project type. Available project types: binary, shared, static."@
}

/// The error of an unrecognized `buildscript` token, enumerating the valid
/// ones.
pub open spec fn msg_bad_timing(t: Seq<char>) -> Seq<char> {
    "`"@ + t + "` is not a valid build script timing. Available timings: before, repeat, after."@
}

/// The one identifier a single-element body must hold, or the error naming
/// the key.
pub open spec fn get_first_s(av: Seq<SpecValue>, key: Seq<char>) -> Result<Seq<char>, Seq<char>> {
    if av.len() == 1 {
        match av[0] {
            SpecValue::Ident(s) => Ok(s),
            _ => Err(msg_single(key)),
        }
    } else {
        Err(msg_single(key))
    }
}

/// A required key: its body must be a list of exactly one identifier.
pub open spec fn required_first_s(vals: Seq<SpecValue>, key: Seq<char>) -> Result<
    Seq<char>,
    Seq<char>,
> {
    match find_val_s(vals, key) {
        Some(SpecValue::Array(av)) => get_first_s(av, key),
        _ => Err(msg_single(key)),
    }
}

/// The dialect named by a `standard` token, if the token is valid.
pub open spec fn standard_of_token(raw: Seq<char>) -> Option<Standard> {
    if raw == "ansi"@ || raw == "c89"@ {
        Some(Standard { dialect: Std::C89, gnu_extensions: false })
    } else if raw == "c99"@ {
        Some(Standard { dialect: Std::C99, gnu_extensions: false })
    } else if raw == "c11"@ {
        Some(Standard { dialect: Std::C11, gnu_extensions: false })
    } else if raw == "c17"@ {
        Some(Standard { dialect: Std::C17, gnu_extensions: false })
    } else if raw == "c23"@ {
        Some(Standard { dialect: Std::C23, gnu_extensions: false })
    } else if raw == "gnu89"@ {
        Some(Standard { dialect: Std::C89, gnu_extensions: true })
    } else if raw == "gnu99"@ {
        Some(Standard { dialect: Std::C99, gnu_extensions: true })
    } else if raw == "gnu11"@ {
        Some(Standard { dialect: Std::C11, gnu_extensions: true })
    } else if raw == "gnu17"@ {
        Some(Standard { dialect: Std::C17, gnu_extensions: true })
    } else if raw == "gnu23"@ {
        Some(Standard { dialect: Std::C23, gnu_extensions: true })
    } else {
        None
    }
}

/// The `standard` key: optional, `c99` without extensions by default.
pub open spec fn standard_s(vals: Seq<SpecValue>) -> Result<Standard, Seq<char>> {
    match find_val_s(vals, "standard"@) {
        None => Ok(Standard { dialect: Std::C99, gnu_extensions: false }),
        Some(SpecValue::Array(av)) => match get_first_s(av, "standard"@) {
            Err(m) => Err(m),
            Ok(raw) => match standard_of_token(raw) {
                Some(s) => Ok(s),
                None => Err(msg_bad_std(raw)),
            },
        },
        Some(_) => Err(msg_single("standard"@)),
    }
}

/// The `cc` key: optional, `cc` by default.
pub open spec fn compiler_s(vals: Seq<SpecValue>) -> Result<Seq<char>, Seq<char>> {
    match find_val_s(vals, "cc"@) {
        None => Ok("cc"@),
        Some(SpecValue::Array(av)) => get_first_s(av, "cc"@),
        Some(_) => Err(msg_single("cc"@)),
    }
}

/// The flags a project gets when its `flags` key is absent.
pub open spec fn default_flags() -> Seq<Seq<char>> {
    seq!["-Wall"@, "-Wextra"@, "-Wwrite-strings"@, "-Werror=discarded-qualifiers"@]
}

/// The texts of a list of identifiers; any other member is an error.
pub open spec fn idents_of(av: Seq<SpecValue>) -> Result<Seq<Seq<char>>, Seq<char>>
    decreases av.len(),
{
    if av.len() == 0 {
        Ok(Seq::empty())
    } else {
        match av[0] {
            SpecValue::Ident(s) => match idents_of(av.drop_first()) {
                Ok(rest) => Ok(seq![s] + rest),
                Err(m) => Err(m),
            },
            _ => Err(msg_flag_ident()),
        }
    }
}

/// The `flags` key: optional; when present it replaces the defaults
/// entirely, keeping order and duplicates.
pub open spec fn flags_s(vals: Seq<SpecValue>) -> Result<Seq<Seq<char>>, Seq<char>> {
    match find_val_s(vals, "flags"@) {
        None => Ok(default_flags()),
        Some(SpecValue::Array(av)) => idents_of(av),
        Some(_) => Err(msg_flags_array()),
    }
}

/// The `type` key: optional, a binary by default.
pub open spec fn ptype_s(vals: Seq<SpecValue>) -> Result<ProjectType, Seq<char>> {
    match find_val_s(vals, "type"@) {
        None => Ok(ProjectType::Binary),
        Some(SpecValue::Array(av)) => match get_first_s(av, "type"@) {
            Err(m) => Err(m),
            Ok(t) => if t == "binary"@ {
                Ok(ProjectType::Binary)
            } else if t == "shared"@ {
                Ok(ProjectType::Shared)
            } else if t == "static"@ {
                Ok(ProjectType::Static)
            } else {
                Err(msg_bad_type(t))
            },
        },
        Some(_) => Err(msg_single("type"@)),
    }
}

/// The `buildscript` key: optional, no hook by default.
pub open spec fn timing_s(vals: Seq<SpecValue>) -> Result<BuildScript, Seq<char>> {
    match find_val_s(vals, "buildscript"@) {
        None => Ok(BuildScript::Absent),
        Some(SpecValue::Array(av)) => match get_first_s(av, "buildscript"@) {
            Err(m) => Err(m),
            Ok(t) => if t == "before"@ {
                Ok(BuildScript::Before)
            } else if t == "repeat"@ {
                Ok(BuildScript::Repeat)
            } else if t == "after"@ {
                Ok(BuildScript::After)
            } else {
                Err(msg_bad_timing(t))
            },
        },
        Some(_) => Err(msg_single("buildscript"@)),
    }
}

/// The whole validation: each key in turn, the first error winning.
pub open spec fn project_s(vals: Seq<SpecValue>) -> Result<ProjectS, Seq<char>> {
    match required_first_s(vals, "name"@) {
        Err(m) => Err(m),
        Ok(name) => match required_first_s(vals, "version"@) {
            Err(m) => Err(m),
            Ok(version) => match standard_s(vals) {
                Err(m) => Err(m),
                Ok(standard) => match compiler_s(vals) {
                    Err(m) => Err(m),
                    Ok(compiler) => match flags_s(vals) {
                        Err(m) => Err(m),
                        Ok(flags) => match ptype_s(vals) {
                            Err(m) => Err(m),
                            Ok(ptype) => match timing_s(vals) {
                                Err(m) => Err(m),
                                Ok(bs) => Ok(
                                    ProjectS {
                                        name,
                                        version,
                                        standard,
                                        compiler,
                                        flags,
                                        ptype,
                                        build_script: bs,
                                    },
                                ),
                            },
                        },
                    },
                },
            },
        },
    }
}

/// The project's flags, each followed by one space, in order.
pub open spec fn flags_cat(fs: Seq<Seq<char>>) -> Seq<char>
    decreases fs.len(),
{
    if fs.len() == 0 {
        Seq::empty()
    } else {
        fs[0] + seq![' '] + flags_cat(fs.drop_first())
    }
}

/// The label of a project type in the diagnostic rendering.
pub open spec fn type_label(t: ProjectType) -> Seq<char> {
    match t {
        ProjectType::Binary => "BIN"@,
        ProjectType::Shared => "SHARED"@,
        ProjectType::Static => "STATIC"@,
    }
}

/// The diagnostic rendering of a descriptor, in fixed order: compiler,
/// flags with the `-std=` token, type label, name, version.
pub open spec fn render_project_s(p: ProjectS) -> Seq<char> {
    "CC       "@ + p.compiler + "
CFLAGS   "@ + flags_cat(p.flags) + "-std="@ + std_token(
        p.standard,
    ) + "
TYPE     "@ + type_label(p.ptype) + "
NAME     "@ + p.name + "
VERSION  "@ + p.version
}

/// Three texts, concatenated.
pub(crate) fn msg3(a: &str, b: &str, c: &str) -> (r: String)
    ensures
        r@ == a@ + b@ + c@,
{
    let mut m = String::new();
    m.append(a);
    m.append(b);
    m.append(c);
    m
}

fn err_single(key: &str) -> (e: Error)
    ensures
        e.0@ == msg_single(key@),
{
    Error(msg3("Key `", key, "` must be a single string."))
}

/// The one identifier a single-element body must hold, or the error naming
/// the key.
pub fn get_first(av: &[ConfigValue], k: &str) -> (r: Result<String, Error>)
    ensures
        match get_first_s(view_list(av@), k@) {
            Ok(s) => r matches Ok(rs) && rs@ == s,
            Err(m) => r matches Err(e) && e.0@ == m,
        },
{
    if av.len() == 1 {
        match &av[0] {
            ConfigValue::Ident(name) => Ok(name.clone()),
            _ => Err(err_single(k)),
        }
    } else {
        Err(err_single(k))
    }
}

impl Project {
    /// Validates a parsed value tree against the project schema and yields
    /// the descriptor, exactly as `project_s` says: required `name` and
    /// `version`, optional `standard`, `cc`, `flags`, `type` and
    /// `buildscript` with their defaults, the first offence reported.
    #[verifier::loop_isolation(false)]
    pub fn from_config(vals: Vec<ConfigValue>) -> (r: Result<Project, Error>)
        ensures
            match project_s(view_list(vals@)) {
                Ok(ps) => r matches Ok(p) && p@ == ps,
                Err(m) => r matches Err(e) && e.0@ == m,
            },
    {
        let ghost vs = view_list(vals@);
        let name = match find_val(vals.as_slice(), "name") {
            Some(ConfigValue::Array(av)) => {
                proof {
                    lemma_abs_array(av);
                }
                match get_first(av.as_slice(), "name") {
                    Ok(s) => s,
                    Err(e) => {
                        return Err(e);
                    },
                }
            },
            None => {
                return Err(err_single("name"));
            },
            Some(other) => {
                proof {
                    lemma_abs_not_array(other);
                }
                return Err(err_single("name"));
            },
        };
        let version = match find_val(vals.as_slice(), "version") {
            Some(ConfigValue::Array(av)) => {
                proof {
                    lemma_abs_array(av);
                }
                match get_first(av.as_slice(), "version") {
                    Ok(s) => s,
                    Err(e) => {
                        return Err(e);
                    },
                }
            },
            None => {
                return Err(err_single("version"));
            },
            Some(other) => {
                proof {
                    lemma_abs_not_array(other);
                }
                return Err(err_single("version"));
            },
        };
        let standard = match find_val(vals.as_slice(), "standard") {
            None => Standard { dialect: Std::C99, gnu_extensions: false },
            Some(ConfigValue::Array(av)) => {
                proof {
                    lemma_abs_array(av);
                }
                let raw = match get_first(av.as_slice(), "standard") {
                    Ok(s) => s,
                    Err(e) => {
                        return Err(e);
                    },
                };
                match parse_standard_token(&raw) {
                    Some(s) => s,
                    None => {
                        return Err(
                            Error(
                                msg3(
                                    "`",
                                    raw.as_str(),
                                    "` is not a valid C standard. Valid standards are: ansi, c89, gnu89, c99, gnu99, c11, gnu11, c17, gnu17, c23, gnu23",
                                ),
                            ),
                        );
                    },
                }
            },
            Some(other) => {
                proof {
                    lemma_abs_not_array(other);
                }
                return Err(err_single("standard"));
            },
        };
        let compiler = match find_val(vals.as_slice(), "cc") {
            None => "cc".to_owned(),
            Some(ConfigValue::Array(av)) => {
                proof {
                    lemma_abs_array(av);
                }
                match get_first(av.as_slice(), "cc") {
                    Ok(s) => s,
                    Err(e) => {
                        return Err(e);
                    },
                }
            },
            Some(other) => {
                proof {
                    lemma_abs_not_array(other);
                }
                return Err(err_single("cc"));
            },
        };
        let flags = match find_val(vals.as_slice(), "flags") {
            None => {
                let mut d: Vec<String> = Vec::new();
                d.push("-Wall".to_owned());
                d.push("-Wextra".to_owned());
                d.push("-Wwrite-strings".to_owned());
                d.push("-Werror=discarded-qualifiers".to_owned());
                proof {
                    assert(strings_view(d@) =~= default_flags());
                }
                d
            },
            Some(ConfigValue::Array(av)) => {
                proof {
                    lemma_abs_array(av);
                }
                let mut flags: Vec<String> = Vec::new();
                let ghost avs = view_list(av@);
                let mut i: usize = 0;
                proof {
                    assert(avs.skip(0) =~= avs);
                    match idents_of(avs) {
                        Ok(all) => {
                            assert(strings_view(flags@) + all =~= all);
                        },
                        _ => {},
                    }
                }
                while i < av.len()
                    invariant
                        i <= av@.len(),
                        match idents_of(avs.skip(i as int)) {
                            Ok(rest) => idents_of(avs) matches Ok(all) && all == strings_view(
                                flags@,
                            ) + rest,
                            Err(m) => idents_of(avs) == Err::<Seq<Seq<char>>, Seq<char>>(m),
                        },
                    decreases av@.len() - i,
                {
                    proof {
                        assert(avs.skip(i as int)[0] == av@[i as int]@);
                        assert(avs.skip(i as int).drop_first() =~= avs.skip(i + 1));
                    }
                    let ghost flags0 = flags@;
                    match &av[i] {
                        ConfigValue::Ident(flag) => {
                            flags.push(flag.clone());
                            proof {
                                assert(av@[i as int]@ == SpecValue::Ident(flag@));
                                assert(strings_view(flags@) =~= strings_view(flags0).push(flag@));
                                match idents_of(avs.skip(i + 1)) {
                                    Ok(rest) => {
                                        assert(strings_view(flags0) + (seq![flag@] + rest)
                                            =~= strings_view(flags@) + rest);
                                    },
                                    _ => {},
                                }
                            }
                        },
                        _ => {
                            return Err(Error("Each flag must be an identifier.".to_owned()));
                        },
                    }
                    i = i + 1;
                }
                proof {
                    assert(avs.skip(av@.len() as int) =~= Seq::<SpecValue>::empty());
                    match idents_of(avs) {
                        Ok(all) => {
                            assert(strings_view(flags@) + Seq::<Seq<char>>::empty() =~= strings_view(
                                flags@));
                        },
                        _ => {
                            assert(false);
                        },
                    }
                }
                flags
            },
            Some(other) => {
                proof {
                    lemma_abs_not_array(other);
                }
                return Err(Error("Key `flags` must be an array.".to_owned()));
            },
        };
        let ptype = match find_val(vals.as_slice(), "type") {
            None => ProjectType::Binary,
            Some(ConfigValue::Array(av)) => {
                proof {
                    lemma_abs_array(av);
                }
                let t = match get_first(av.as_slice(), "type") {
                    Ok(s) => s,
                    Err(e) => {
                        return Err(e);
                    },
                };
                if str_eq(t.as_str(), "binary") {
                    ProjectType::Binary
                } else if str_eq(t.as_str(), "shared") {
                    ProjectType::Shared
                } else if str_eq(t.as_str(), "static") {
                    ProjectType::Static
                } else {
                    return Err(
                        Error(
                            msg3(
                                "`",
                                t.as_str(),
                                "` is not a valid project type. Available project types: binary, shared, static.",
                            ),
                        ),
                    );
                }
            },
            Some(other) => {
                proof {
                    lemma_abs_not_array(other);
                }
                return Err(err_single("type"));
            },
        };
        let build_script = match find_val(vals.as_slice(), "buildscript") {
            None => BuildScript::Absent,
            Some(ConfigValue::Array(av)) => {
                proof {
                    lemma_abs_array(av);
                }
                let t = match get_first(av.as_slice(), "buildscript") {
                    Ok(s) => s,
                    Err(e) => {
                        return Err(e);
                    },
                };
                if str_eq(t.as_str(), "before") {
                    BuildScript::Before
                } else if str_eq(t.as_str(), "repeat") {
                    BuildScript::Repeat
                } else if str_eq(t.as_str(), "after") {
                    BuildScript::After
                } else {
                    return Err(
                        Error(
                            msg3(
                                "`",
                                t.as_str(),
                                "` is not a valid build script timing. Available timings: before, repeat, after.",
                            ),
                        ),
                    );
                }
            },
            Some(other) => {
                proof {
                    lemma_abs_not_array(other);
                }
                return Err(err_single("buildscript"));
            },
        };
        Ok(Project { name, version, standard, compiler, flags, ptype, build_script })
    }
}

impl Project {
    /// The diagnostic rendering, exactly as `render_project_s` says.
    #[verifier::loop_isolation(false)]
    pub fn render(&self) -> (r: String)
        ensures
            r@ == render_project_s(self@),
    {
        let mut out = "CC       ".to_owned();
        out.append(self.compiler.as_str());
        out.append("
CFLAGS   ");
        let ghost fv = strings_view(self.flags@);
        let ghost base = out@;
        let mut i: usize = 0;
        proof {
            assert(fv.skip(0) =~= fv);
        }
        while i < self.flags.len()
            invariant
                i <= self.flags@.len(),
                out@ + flags_cat(fv.skip(i as int)) =~= base + flags_cat(fv),
            decreases self.flags@.len() - i,
        {
            let ghost outb = out@;
            out.append(self.flags[i].as_str());
            push_char(&mut out, ' ');
            proof {
                assert(fv.skip(i as int).drop_first() =~= fv.skip(i + 1));
                assert(fv.skip(i as int)[0] == self.flags@[i as int]@);
                assert(flags_cat(fv.skip(i as int)) =~= self.flags@[i as int]@ + seq![' ']
                    + flags_cat(fv.skip(i + 1)));
                assert(out@ =~= outb + self.flags@[i as int]@ + seq![' ']);
                assert(out@ + flags_cat(fv.skip(i + 1)) =~= outb + flags_cat(fv.skip(i as int)));
            }
            i = i + 1;
        }
        proof {
            assert(fv.skip(self.flags@.len() as int) =~= Seq::<Seq<char>>::empty());
            assert(flags_cat(fv.skip(self.flags@.len() as int)) =~= Seq::<char>::empty());
            assert(out@ + Seq::<char>::empty() =~= out@);
        }
        out.append("-std=");
        let tok = render_standard(self.standard);
        out.append(tok.as_str());
        out.append("
TYPE     ");
        match self.ptype {
            ProjectType::Binary => out.append("BIN"),
            ProjectType::Shared => out.append("SHARED"),
            ProjectType::Static => out.append("STATIC"),
        }
        out.append("
NAME     ");
        out.append(self.name.as_str());
        out.append("
VERSION  ");
        out.append(self.version.as_str());
        proof {
            assert(out@ =~= render_project_s(self@));
        }
        out
    }
}

/// The dialect named by a `standard` token, or nothing.
fn parse_standard_token(raw: &String) -> (r: Option<Standard>)
    ensures
        r == standard_of_token(raw@),
{
    if str_eq(raw.as_str(), "ansi") || str_eq(raw.as_str(), "c89") {
        Some(Standard { dialect: Std::C89, gnu_extensions: false })
    } else if str_eq(raw.as_str(), "c99") {
        Some(Standard { dialect: Std::C99, gnu_extensions: false })
    } else if str_eq(raw.as_str(), "c11") {
        Some(Standard { dialect: Std::C11, gnu_extensions: false })
    } else if str_eq(raw.as_str(), "c17") {
        Some(Standard { dialect: Std::C17, gnu_extensions: false })
    } else if str_eq(raw.as_str(), "c23") {
        Some(Standard { dialect: Std::C23, gnu_extensions: false })
    } else if str_eq(raw.as_str(), "gnu89") {
        Some(Standard { dialect: Std::C89, gnu_extensions: true })
    } else if str_eq(raw.as_str(), "gnu99") {
        Some(Standard { dialect: Std::C99, gnu_extensions: true })
    } else if str_eq(raw.as_str(), "gnu11") {
        Some(Standard { dialect: Std::C11, gnu_extensions: true })
    } else if str_eq(raw.as_str(), "gnu17") {
        Some(Standard { dialect: Std::C17, gnu_extensions: true })
    } else if str_eq(raw.as_str(), "gnu23") {
        Some(Standard { dialect: Std::C23, gnu_extensions: true })
    } else {
        None
    }
}

} // verus!
