//! Plugin manifests: what a plugin is, what triggers its commands and what it may do.

use vstd::prelude::*;

use crate::json::{
    array_view, field_views, item_views, object, put_field, strings_value, text_array, text_value,
    Json, JsonView,
};
use crate::pattern::{regex_problem, compile_failure};
use crate::text::{
    blank, chars_of, copy_opt, copy_strings, is_blank, opt_view, same, text3, text5, text7, views,
};

verus! {

/// Name of the manifest file inside each plugin directory.
pub const MANIFEST_FILE: &'static str = "plugin.json";

/// Bundle entry relative to the plugin directory.
pub const ENTRY_FILE: &'static str = "dist/index.js";

/// What kind of condition triggers a command.
#[derive(Debug, Clone, Copy, PartialEq, Eq, Structural)]
pub enum TriggerType {
    /// Fixed command name (the command's `name`).
    Command,
    /// Keyword prefix (e.g. `=`) or a natural-language phrase.
    Prefix,
    /// Regular expression match.
    Regex,
    /// Participates in every query.
    Dynamic,
}

/// Where a plugin runs.
#[derive(Debug, Clone, Copy, PartialEq, Eq, Structural)]
pub enum Isolation {
    /// The isolate pool that plugins share.
    SharedPool,
    /// A runtime process for this plugin alone.
    DedicatedProcess,
}

/// What a plugin may be allowed to do.
#[derive(Debug, Clone, Copy, PartialEq, Eq, Structural)]
pub enum Permission {
    ClipboardRead,
    ClipboardWrite,
    ClipboardHistory,
    OpenUrl,
    OpenPath,
    Network,
    FsRead,
    FsWrite,
}

/// A command's trigger condition.
#[derive(Debug, PartialEq, Eq)]
pub struct Trigger {
    pub kind: TriggerType,
    /// Required for `prefix` and `regex`; must be absent for `command`.
    pub value: Option<String>,
}

/// One launcher command of a plugin.
#[derive(Debug, PartialEq, Eq)]
pub struct PluginCommand {
    /// Command name, matched by the `command` trigger type.
    pub name: String,
    /// Human-readable command title.
    pub title: String,
    pub trigger: Trigger,
    /// Whether the view this command returns may be shown in a window of its own.
    pub detachable: bool,
    /// Localized aliases; queries are matched against the name, the title and these.
    pub keywords: Vec<String>,
}

/// A plugin manifest.
#[derive(Debug, PartialEq, Eq)]
pub struct PluginManifest {
    /// Reverse-domain id, globally unique.
    pub id: String,
    /// Display name.
    pub name: String,
    /// Version; a change is the only reason to read a plugin again.
    pub version: String,
    /// Optional launcher row icon: an inline SVG document.
    pub icon: Option<String>,
    /// Roots this plugin may read from disk.
    pub fs_roots: Vec<String>,
    pub commands: Vec<PluginCommand>,
    /// Permissions; none by default.
    pub permissions: Vec<Permission>,
    pub isolation: Isolation,
}

/// Why a manifest was refused, in words.
#[derive(Debug, PartialEq, Eq)]
pub struct ManifestError(pub String);

/// What a [`PluginCommand`] is.
pub struct CommandView {
    pub name: Seq<char>,
    pub title: Seq<char>,
    pub kind: TriggerType,
    pub value: Option<Seq<char>>,
    pub detachable: bool,
    pub keywords: Seq<Seq<char>>,
}

/// What a [`PluginManifest`] is.
pub struct ManifestView {
    pub id: Seq<char>,
    pub name: Seq<char>,
    pub version: Seq<char>,
    pub icon: Option<Seq<char>>,
    pub fs_roots: Seq<Seq<char>>,
    pub commands: Seq<CommandView>,
    pub permissions: Seq<Permission>,
    pub isolation: Isolation,
}

impl View for PluginCommand {
    type V = CommandView;

    open spec fn view(&self) -> CommandView {
        CommandView {
            name: self.name@,
            title: self.title@,
            kind: self.trigger.kind,
            value: opt_view(self.trigger.value),
            detachable: self.detachable,
            keywords: views(self.keywords@),
        }
    }
}

/// The views of a list of commands.
pub open spec fn command_views(v: Seq<PluginCommand>) -> Seq<CommandView> {
    v.map_values(|c: PluginCommand| c@)
}

impl View for PluginManifest {
    type V = ManifestView;

    open spec fn view(&self) -> ManifestView {
        ManifestView {
            id: self.id@,
            name: self.name@,
            version: self.version@,
            icon: opt_view(self.icon),
            fs_roots: views(self.fs_roots@),
            commands: command_views(self.commands@),
            permissions: self.permissions@,
            isolation: self.isolation,
        }
    }
}

impl Default for Isolation {
    fn default() -> (r: Self)
        ensures
            r == Isolation::SharedPool,
    {
        Isolation::SharedPool
    }
}

impl Isolation {
    /// The name of the isolation level in a manifest.
    pub open spec fn wire_name(self) -> Seq<char> {
        match self {
            Isolation::SharedPool => "shared-pool"@,
            Isolation::DedicatedProcess => "dedicated-process"@,
        }
    }

    /// The name of the isolation level in a manifest.
    pub fn to_string(&self) -> (r: String)
        ensures
            r@ == self.wire_name(),
    {
        match self {
            Isolation::SharedPool => "shared-pool".to_owned(),
            Isolation::DedicatedProcess => "dedicated-process".to_owned(),
        }
    }
}

impl TriggerType {
    /// The name of the trigger type in a manifest.
    pub open spec fn wire_name(self) -> Seq<char> {
        match self {
            TriggerType::Command => "command"@,
            TriggerType::Prefix => "prefix"@,
            TriggerType::Regex => "regex"@,
            TriggerType::Dynamic => "dynamic"@,
        }
    }

    /// The name of the trigger type in a manifest.
    pub fn to_string(&self) -> (r: String)
        ensures
            r@ == self.wire_name(),
    {
        match self {
            TriggerType::Command => "command".to_owned(),
            TriggerType::Prefix => "prefix".to_owned(),
            TriggerType::Regex => "regex".to_owned(),
            TriggerType::Dynamic => "dynamic".to_owned(),
        }
    }
}

impl Permission {
    /// Permissions with a working host function: all but network access.
    pub open spec fn supported(self) -> bool {
        self != Permission::Network
    }

    /// Whether the permission has a working host function. The others are
    /// recognized so that the error can be precise, but are refused.
    pub fn supported_in_m3(self) -> (r: bool)
        ensures
            r == self.supported(),
    {
        matches!(
            self,
            Permission::ClipboardRead
                | Permission::ClipboardWrite
                | Permission::ClipboardHistory
                | Permission::OpenUrl
                | Permission::OpenPath
                | Permission::FsRead
                | Permission::FsWrite
        )
    }

    /// The name of the permission in a manifest.
    pub open spec fn wire_name(self) -> Seq<char> {
        match self {
            Permission::ClipboardRead => "clipboard.read"@,
            Permission::ClipboardWrite => "clipboard.write"@,
            Permission::ClipboardHistory => "clipboard.history"@,
            Permission::OpenUrl => "open.url"@,
            Permission::OpenPath => "open.path"@,
            Permission::Network => "network"@,
            Permission::FsRead => "fs.read"@,
            Permission::FsWrite => "fs.write"@,
        }
    }

    /// The name of the permission in a manifest.
    pub fn to_string(&self) -> (r: String)
        ensures
            r@ == self.wire_name(),
    {
        match self {
            Permission::ClipboardRead => "clipboard.read".to_owned(),
            Permission::ClipboardWrite => "clipboard.write".to_owned(),
            Permission::ClipboardHistory => "clipboard.history".to_owned(),
            Permission::OpenUrl => "open.url".to_owned(),
            Permission::OpenPath => "open.path".to_owned(),
            Permission::Network => "network".to_owned(),
            Permission::FsRead => "fs.read".to_owned(),
            Permission::FsWrite => "fs.write".to_owned(),
        }
    }
}

impl ManifestError {
    /// The message.
    pub fn to_string(&self) -> (r: String)
        ensures
            r@ == self.0@,
    {
        self.0.clone()
    }
}

/// The characters a segment of an id may hold.
pub open spec fn is_id_char(c: char) -> bool {
    ('a' <= c && c <= 'z') || ('A' <= c && c <= 'Z') || ('0' <= c && c <= '9') || c == '-' || c
        == '_'
}

/// Whether `id` has at least two segments, that is, holds a dot.
pub open spec fn has_segments(id: Seq<char>) -> bool {
    exists|i: int| 0 <= i < id.len() && #[trigger] id[i] == '.'
}

/// Whether the segments between the dots of `id` hold id characters, at least one each.
pub open spec fn segments_valid(id: Seq<char>) -> bool {
    &&& id.len() > 0
    &&& id[0] != '.'
    &&& id.last() != '.'
    &&& forall|i: int| 0 <= i < id.len() ==> is_id_char(#[trigger] id[i]) || id[i] == '.'
    &&& forall|i: int| 0 < i < id.len() && #[trigger] id[i] == '.' ==> id[i - 1] != '.'
}

/// Whether one of `v` is blank.
pub open spec fn any_blank(v: Seq<Seq<char>>) -> bool {
    exists|i: int| 0 <= i < v.len() && blank(#[trigger] v[i])
}

/// The message for a command that is not valid.
pub open spec fn command_problem(id: Seq<char>, c: CommandView) -> Option<Seq<char>> {
    if blank(c.name) {
        Some("plugin '"@ + id + "': command name must not be empty"@)
    } else if blank(c.title) {
        Some("plugin '"@ + id + "': command '"@ + c.name + "' title must not be empty"@)
    } else if any_blank(c.keywords) {
        Some("plugin '"@ + id + "': command '"@ + c.name + "' keyword must not be empty"@)
    } else {
        match c.kind {
            TriggerType::Command => if c.value is Some {
                Some(
                    "plugin '"@ + id + "': command '"@ + c.name
                        + "' trigger of type 'command' takes no value"@,
                )
            } else {
                None
            },
            TriggerType::Prefix | TriggerType::Regex => if c.value is None || c.value->0.len() == 0 {
                Some(
                    "plugin '"@ + id + "': command '"@ + c.name + "' trigger of type '"@
                        + c.kind.wire_name() + "' requires a value"@,
                )
            } else if c.kind == TriggerType::Regex {
                match regex_problem(c.value->0) {
                    Some(e) => Some(
                        "plugin '"@ + id + "': command '"@ + c.name + "' has an invalid regex: "@
                            + e,
                    ),
                    None => None,
                }
            } else {
                None
            },
            TriggerType::Dynamic => None,
        }
    }
}

/// The message for the first of the commands, from the `n`th on, that is not
/// valid or has the name of one before it.
pub open spec fn commands_problem(id: Seq<char>, cs: Seq<CommandView>, n: int) -> Option<Seq<char>>
    decreases cs.len() - n,
{
    if n < 0 || n >= cs.len() {
        None
    } else {
        match command_problem(id, cs[n]) {
            Some(e) => Some(e),
            None => if exists|j: int| 0 <= j < n && #[trigger] cs[j].name == cs[n].name {
                Some("plugin '"@ + id + "': duplicate command name '"@ + cs[n].name + "'"@)
            } else {
                commands_problem(id, cs, n + 1)
            },
        }
    }
}

/// The message for the first of the permissions, from the `n`th on, that is not supported.
pub open spec fn permissions_problem(id: Seq<char>, ps: Seq<Permission>, n: int) -> Option<
    Seq<char>,
>
    decreases ps.len() - n,
{
    if n < 0 || n >= ps.len() {
        None
    } else if !ps[n].supported() {
        Some(
            "plugin '"@ + id + "': permission '"@ + ps[n].wire_name()
                + "' is not supported in M3"@,
        )
    } else {
        permissions_problem(id, ps, n + 1)
    }
}

/// The message for a manifest that is not valid; `None` for one that is.
pub open spec fn manifest_problem(m: ManifestView) -> Option<Seq<char>> {
    if blank(m.id) {
        Some("id must not be empty"@)
    } else if !has_segments(m.id) {
        Some(
            "id '"@ + m.id
                + "' must be a reverse-domain (at least two dot-separated segments)"@,
        )
    } else if !segments_valid(m.id) {
        Some(
            "id '"@ + m.id
                + "' has an invalid segment (letters, digits, '-' and '_' only)"@,
        )
    } else if blank(m.name) {
        Some("plugin '"@ + m.id + "': name must not be empty"@)
    } else if blank(m.version) {
        Some("plugin '"@ + m.id + "': version must not be empty"@)
    } else if m.icon is Some && blank(m.icon->0) {
        Some("plugin '"@ + m.id + "': icon must not be empty when present"@)
    } else if any_blank(m.fs_roots) {
        Some("plugin '"@ + m.id + "': fs_roots must not contain empty paths"@)
    } else if m.commands.len() == 0 {
        Some("plugin '"@ + m.id + "': at least one command is required"@)
    } else {
        match commands_problem(m.id, m.commands, 0) {
            Some(e) => Some(e),
            None => permissions_problem(m.id, m.permissions, 0),
        }
    }
}

/// The message of an error; `None` where there is none.
pub open spec fn problem_of(r: Result<(), ManifestError>) -> Option<Seq<char>> {
    match r {
        Ok(_) => None,
        Err(e) => Some(e.0@),
    }
}

/// Whether one of `v` is blank.
fn some_blank(v: &Vec<String>) -> (r: bool)
    ensures
        r == any_blank(views(v@)),
{
    let mut i: usize = 0;
    while i < v.len()
        invariant
            i <= v.len(),
            forall|j: int| 0 <= j < i ==> !blank(#[trigger] views(v@)[j]),
        decreases v.len() - i,
    {
        if is_blank(v[i].as_str()) {
            assert(blank(views(v@)[i as int]));
            return true;
        }
        i += 1;
    }
    false
}

/// Whether `id` holds a dot, and whether its segments are valid.
fn check_id(id: &str) -> (r: (bool, bool))
    ensures
        r.0 == has_segments(id@),
        r.1 == segments_valid(id@),
{
    let v = chars_of(id);
    let n: usize = v.len();
    let mut dotted = false;
    let mut valid = n > 0 && v[0] != '.' && v[n - 1] != '.';
    let mut i: usize = 0;
    while i < n
        invariant
            i <= n,
            n == v.len(),
            v@ == id@,
            dotted == exists|j: int| 0 <= j < i && #[trigger] id@[j] == '.',
            valid == (n > 0 && id@[0] != '.' && id@.last() != '.' && (forall|j: int|
                0 <= j < i ==> is_id_char(#[trigger] id@[j]) || id@[j] == '.') && (forall|j: int|
                0 < j < i && #[trigger] id@[j] == '.' ==> id@[j - 1] != '.')),
        decreases n - i,
    {
        let c = v[i];
        assert(id@[i as int] == c);
        if c == '.' {
            dotted = true;
            if i > 0 && v[i - 1] == '.' {
                valid = false;
            }
        } else if !(('a' <= c && c <= 'z') || ('A' <= c && c <= 'Z') || ('0' <= c && c <= '9') || c
            == '-' || c == '_') {
            valid = false;
        }
        i += 1;
    }
    (dotted, valid)
}

impl PluginCommand {
    /// Checks the command of the plugin `plugin_id`.
    pub fn validate(&self, plugin_id: &str) -> (r: Result<(), ManifestError>)
        ensures
            problem_of(r) == command_problem(plugin_id@, self@),
    {
        if is_blank(self.name.as_str()) {
            return Err(
                ManifestError(text3("plugin '", plugin_id, "': command name must not be empty")),
            );
        }
        if is_blank(self.title.as_str()) {
            return Err(
                ManifestError(
                    text5(
                        "plugin '",
                        plugin_id,
                        "': command '",
                        self.name.as_str(),
                        "' title must not be empty",
                    ),
                ),
            );
        }
        if some_blank(&self.keywords) {
            return Err(
                ManifestError(
                    text5(
                        "plugin '",
                        plugin_id,
                        "': command '",
                        self.name.as_str(),
                        "' keyword must not be empty",
                    ),
                ),
            );
        }
        match self.trigger.kind {
            TriggerType::Command => {
                if self.trigger.value.is_some() {
                    return Err(
                        ManifestError(
                            text5(
                                "plugin '",
                                plugin_id,
                                "': command '",
                                self.name.as_str(),
                                "' trigger of type 'command' takes no value",
                            ),
                        ),
                    );
                }
            },
            TriggerType::Prefix | TriggerType::Regex => {
                let value = match &self.trigger.value {
                    Some(value) => value.clone(),
                    None => String::new(),
                };
                if value.as_str().unicode_len() == 0 {
                    let kind = self.trigger.kind.to_string();
                    return Err(
                        ManifestError(
                            text7(
                                "plugin '",
                                plugin_id,
                                "': command '",
                                self.name.as_str(),
                                "' trigger of type '",
                                kind.as_str(),
                                "' requires a value",
                            ),
                        ),
                    );
                }
                if self.trigger.kind == TriggerType::Regex {
                    if let Some(error) = compile_failure(value.as_str()) {
                        let mut message = text5(
                            "plugin '",
                            plugin_id,
                            "': command '",
                            self.name.as_str(),
                            "' has an invalid regex: ",
                        );
                        message.append(error.as_str());
                        return Err(ManifestError(message));
                    }
                }
            },
            TriggerType::Dynamic => {},
        }
        Ok(())
    }
}

impl PluginManifest {
    /// Checks identity, command triggers and the permission whitelist.
    pub fn validate(&self) -> (r: Result<(), ManifestError>)
        ensures
            problem_of(r) == manifest_problem(self@),
    {
        let id = self.id.as_str();
        if is_blank(id) {
            return Err(ManifestError("id must not be empty".to_owned()));
        }
        let (dotted, valid) = check_id(id);
        if !dotted {
            return Err(
                ManifestError(
                    text3(
                        "id '",
                        id,
                        "' must be a reverse-domain (at least two dot-separated segments)",
                    ),
                ),
            );
        }
        if !valid {
            return Err(
                ManifestError(
                    text3(
                        "id '",
                        id,
                        "' has an invalid segment (letters, digits, '-' and '_' only)",
                    ),
                ),
            );
        }
        if is_blank(self.name.as_str()) {
            return Err(ManifestError(text3("plugin '", id, "': name must not be empty")));
        }
        if is_blank(self.version.as_str()) {
            return Err(ManifestError(text3("plugin '", id, "': version must not be empty")));
        }
        if let Some(icon) = &self.icon {
            if is_blank(icon.as_str()) {
                return Err(
                    ManifestError(text3("plugin '", id, "': icon must not be empty when present")),
                );
            }
        }
        if some_blank(&self.fs_roots) {
            return Err(
                ManifestError(text3("plugin '", id, "': fs_roots must not contain empty paths")),
            );
        }
        if self.commands.len() == 0 {
            return Err(
                ManifestError(text3("plugin '", id, "': at least one command is required")),
            );
        }
        match self.validate_commands() {
            Err(e) => Err(e),
            Ok(_) => self.validate_permissions(),
        }
    }

    /// Checks the commands, and that no two have the same name.
    fn validate_commands(&self) -> (r: Result<(), ManifestError>)
        ensures
            problem_of(r) == commands_problem(self@.id, self@.commands, 0),
    {
        let id = self.id.as_str();
        let ghost cs = command_views(self.commands@);
        let mut i: usize = 0;
        while i < self.commands.len()
            invariant
                i <= self.commands.len(),
                id@ == self.id@,
                cs == command_views(self.commands@),
                commands_problem(id@, cs, 0) == commands_problem(id@, cs, i as int),
            decreases self.commands.len() - i,
        {
            assert(cs[i as int] == self.commands@[i as int]@);
            if let Err(e) = self.commands[i].validate(id) {
                return Err(e);
            }
            let mut j: usize = 0;
            while j < i
                invariant
                    j <= i < self.commands.len(),
                    id@ == self.id@,
                    cs == command_views(self.commands@),
                    cs[i as int] == self.commands@[i as int]@,
                    command_problem(id@, cs[i as int]) is None,
                    commands_problem(id@, cs, 0) == commands_problem(id@, cs, i as int),
                    forall|k: int| 0 <= k < j ==> #[trigger] cs[k].name != cs[i as int].name,
                decreases i - j,
            {
                assert(cs[j as int] == self.commands@[j as int]@);
                if same(self.commands[j].name.as_str(), self.commands[i].name.as_str()) {
                    assert(cs[j as int].name == cs[i as int].name);
                    return Err(
                        ManifestError(
                            text5(
                                "plugin '",
                                id,
                                "': duplicate command name '",
                                self.commands[i].name.as_str(),
                                "'",
                            ),
                        ),
                    );
                }
                j += 1;
            }
            i += 1;
        }
        Ok(())
    }

    /// Checks that all permissions are supported.
    fn validate_permissions(&self) -> (r: Result<(), ManifestError>)
        ensures
            problem_of(r) == permissions_problem(self@.id, self@.permissions, 0),
    {
        let id = self.id.as_str();
        let mut i: usize = 0;
        while i < self.permissions.len()
            invariant
                i <= self.permissions.len(),
                id@ == self.id@,
                permissions_problem(id@, self.permissions@, 0) == permissions_problem(
                    id@,
                    self.permissions@,
                    i as int,
                ),
            decreases self.permissions.len() - i,
        {
            if !self.permissions[i].supported_in_m3() {
                let name = self.permissions[i].to_string();
                return Err(
                    ManifestError(
                        text5(
                            "plugin '",
                            id,
                            "': permission '",
                            name.as_str(),
                            "' is not supported in M3",
                        ),
                    ),
                );
            }
            i += 1;
        }
        Ok(())
    }
}

impl Clone for PluginCommand {
    fn clone(&self) -> (r: Self)
        ensures
            r@ == self@,
    {
        PluginCommand {
            name: self.name.clone(),
            title: self.title.clone(),
            trigger: Trigger { kind: self.trigger.kind, value: copy_opt(&self.trigger.value) },
            detachable: self.detachable,
            keywords: copy_strings(&self.keywords),
        }
    }
}

/// Copies of a list of commands.
fn copy_commands(v: &Vec<PluginCommand>) -> (r: Vec<PluginCommand>)
    ensures
        command_views(r@) == command_views(v@),
{
    let mut r: Vec<PluginCommand> = Vec::new();
    let mut i: usize = 0;
    while i < v.len()
        invariant
            i <= v.len(),
            r@.len() == i,
            forall|j: int| 0 <= j < i ==> (#[trigger] r@[j])@ == v@[j]@,
        decreases v.len() - i,
    {
        r.push(v[i].clone());
        i += 1;
    }
    assert(command_views(r@) =~= command_views(v@));
    r
}

/// A copy of a list of permissions.
fn copy_permissions(v: &Vec<Permission>) -> (r: Vec<Permission>)
    ensures
        r@ == v@,
{
    let mut r: Vec<Permission> = Vec::new();
    let mut i: usize = 0;
    while i < v.len()
        invariant
            i <= v.len(),
            r@ == v@.take(i as int),
        decreases v.len() - i,
    {
        r.push(v[i]);
        i += 1;
        assert(r@ =~= v@.take(i as int));
    }
    assert(r@ =~= v@);
    r
}

impl Clone for PluginManifest {
    fn clone(&self) -> (r: Self)
        ensures
            r@ == self@,
    {
        PluginManifest {
            id: self.id.clone(),
            name: self.name.clone(),
            version: self.version.clone(),
            icon: copy_opt(&self.icon),
            fs_roots: copy_strings(&self.fs_roots),
            commands: copy_commands(&self.commands),
            permissions: copy_permissions(&self.permissions),
            isolation: self.isolation,
        }
    }
}

/// How a command is written down in JSON: flags that are off and lists that
/// are empty are left out.
pub open spec fn command_json(c: CommandView) -> JsonView {
    let trigger = seq![("type"@, JsonView::Str(c.kind.wire_name()))] + match c.value {
        Some(v) => seq![("value"@, JsonView::Str(v))],
        None => seq![],
    };
    JsonView::Object(
        seq![
            ("name"@, JsonView::Str(c.name)),
            ("title"@, JsonView::Str(c.title)),
            ("trigger"@, JsonView::Object(trigger)),
        ] + (if c.detachable {
            seq![("detachable"@, JsonView::Bool(true))]
        } else {
            seq![]
        }) + (if c.keywords.len() > 0 {
            seq![("keywords"@, text_array(c.keywords))]
        } else {
            seq![]
        }),
    )
}

/// How a manifest is written down in JSON: what is absent or empty by default
/// is left out, but for the commands and the permissions.
pub open spec fn manifest_json(m: ManifestView) -> JsonView {
    JsonView::Object(
        seq![
            ("id"@, JsonView::Str(m.id)),
            ("name"@, JsonView::Str(m.name)),
            ("version"@, JsonView::Str(m.version)),
        ] + (match m.icon {
            Some(icon) => seq![("icon"@, JsonView::Str(icon))],
            None => seq![],
        }) + (if m.fs_roots.len() > 0 {
            seq![("fs_roots"@, text_array(m.fs_roots))]
        } else {
            seq![]
        }) + seq![
            ("commands"@, JsonView::Array(m.commands.map_values(|c: CommandView| command_json(c)))),
            (
                "permissions"@,
                text_array(m.permissions.map_values(|p: Permission| p.wire_name())),
            ),
            ("isolation"@, JsonView::Str(m.isolation.wire_name())),
        ],
    )
}

impl PluginCommand {
    /// The command in JSON.
    pub fn to_json(&self) -> (r: Json)
        ensures
            r@ == command_json(self@),
    {
        let mut trigger: Vec<(String, Json)> = Vec::new();
        put_field(&mut trigger, "type", Json::Str(self.trigger.kind.to_string()));
        if let Some(value) = &self.trigger.value {
            put_field(&mut trigger, "value", text_value(value.as_str()));
        }
        let ghost shown = field_views(trigger@);
        let trigger = object(trigger);
        let mut fields: Vec<(String, Json)> = Vec::new();
        put_field(&mut fields, "name", text_value(self.name.as_str()));
        put_field(&mut fields, "title", text_value(self.title.as_str()));
        put_field(&mut fields, "trigger", trigger);
        if self.detachable {
            put_field(&mut fields, "detachable", Json::Bool(true));
        }
        if self.keywords.len() > 0 {
            put_field(&mut fields, "keywords", strings_value(&self.keywords));
        }
        proof {
            let want = command_json(self@)->Object_0;
            assert(want[2].1->Object_0 =~= shown);
            assert(field_views(fields@) =~= want);
        }
        object(fields)
    }
}

impl PluginManifest {
    /// The manifest in JSON.
    pub fn to_json(&self) -> (r: Json)
        ensures
            r@ == manifest_json(self@),
    {
        broadcast use array_view;

        let mut fields: Vec<(String, Json)> = Vec::new();
        put_field(&mut fields, "id", text_value(self.id.as_str()));
        put_field(&mut fields, "name", text_value(self.name.as_str()));
        put_field(&mut fields, "version", text_value(self.version.as_str()));
        if let Some(icon) = &self.icon {
            put_field(&mut fields, "icon", text_value(icon.as_str()));
        }
        if self.fs_roots.len() > 0 {
            put_field(&mut fields, "fs_roots", strings_value(&self.fs_roots));
        }
        let mut commands: Vec<Json> = Vec::new();
        let mut i: usize = 0;
        while i < self.commands.len()
            invariant
                i <= self.commands.len(),
                commands@.len() == i,
                forall|j: int|
                    0 <= j < i ==> (#[trigger] commands@[j])@ == command_json(self.commands@[j]@),
            decreases self.commands.len() - i,
        {
            commands.push(self.commands[i].to_json());
            i += 1;
        }
        let mut permissions: Vec<String> = Vec::new();
        let mut i: usize = 0;
        while i < self.permissions.len()
            invariant
                i <= self.permissions.len(),
                permissions@.len() == i,
                forall|j: int|
                    0 <= j < i ==> (#[trigger] permissions@[j])@ == self.permissions@[j].wire_name(),
            decreases self.permissions.len() - i,
        {
            permissions.push(self.permissions[i].to_string());
            i += 1;
        }
        proof {
            assert(item_views(commands@) =~= self@.commands.map_values(
                |c: CommandView| command_json(c),
            ));
            assert(views(permissions@) =~= self@.permissions.map_values(
                |p: Permission| p.wire_name(),
            ));
        }
        put_field(&mut fields, "commands", Json::Array(commands));
        put_field(&mut fields, "permissions", strings_value(&permissions));
        put_field(&mut fields, "isolation", Json::Str(self.isolation.to_string()));
        assert(field_views(fields@) =~= manifest_json(self@)->Object_0);
        object(fields)
    }
}

/// A plugin as the registry knows it: its manifest and where it lives on disk.
#[derive(Debug, PartialEq, Eq)]
pub struct PluginMeta {
    pub manifest: PluginManifest,
    /// Plugin directory.
    pub dir: String,
    /// Bundle entry path.
    pub entry: String,
    /// Inline SVG icon for launcher rows, if the manifest declares one.
    pub icon: Option<String>,
    /// UNIX timestamp of the last time this entry was written.
    pub scanned_at: i64,
}

/// What a [`PluginMeta`] is.
pub struct MetaView {
    pub manifest: ManifestView,
    pub dir: Seq<char>,
    pub entry: Seq<char>,
    pub icon: Option<Seq<char>>,
    pub scanned_at: i64,
}

impl View for PluginMeta {
    type V = MetaView;

    open spec fn view(&self) -> MetaView {
        MetaView {
            manifest: self.manifest@,
            dir: self.dir@,
            entry: self.entry@,
            icon: opt_view(self.icon),
            scanned_at: self.scanned_at,
        }
    }
}

impl Clone for PluginMeta {
    fn clone(&self) -> (r: Self)
        ensures
            r@ == self@,
    {
        PluginMeta {
            manifest: self.manifest.clone(),
            dir: self.dir.clone(),
            entry: self.entry.clone(),
            icon: copy_opt(&self.icon),
            scanned_at: self.scanned_at,
        }
    }
}

/// The path of `file` inside the directory `dir`, with one `/` between the two.
pub open spec fn path_in(dir: Seq<char>, file: Seq<char>) -> Seq<char> {
    if dir.len() == 0 || dir.last() == '/' {
        dir + file
    } else {
        dir.push('/') + file
    }
}

/// The path of `file` inside the directory `dir`, with one `/` between the two.
pub fn join_path(dir: &str, file: &str) -> (r: String)
    ensures
        r@ == path_in(dir@, file@),
{
    let v = chars_of(dir);
    let mut path = dir.to_owned();
    if v.len() > 0 && v[v.len() - 1] != '/' {
        path.push('/');
    }
    path.append(file);
    path
}

/// Path of a plugin's bundle entry.
pub fn entry_path(dir: &str) -> (r: String)
    ensures
        r@ == path_in(dir@, ENTRY_FILE@),
{
    join_path(dir, ENTRY_FILE)
}

/// A valid manifest has an id of at least two valid segments, a name, a version
/// and a command, its commands are valid and have distinct names, and all its
/// permissions are supported.
pub proof fn valid_manifest_is_sound(m: ManifestView)
    requires
        manifest_problem(m) is None,
    ensures
        has_segments(m.id) && segments_valid(m.id),
        !blank(m.name) && !blank(m.version),
        m.commands.len() > 0,
        forall|i: int|
            0 <= i < m.commands.len() ==> command_problem(m.id, #[trigger] m.commands[i]) is None,
        forall|i: int, j: int|
            0 <= i < j < m.commands.len() ==> (#[trigger] m.commands[i]).name != (
            #[trigger] m.commands[j]).name,
        forall|i: int| 0 <= i < m.permissions.len() ==> (#[trigger] m.permissions[i]).supported(),
{
    lemma_commands(m.id, m.commands, 0);
    lemma_permissions(m.id, m.permissions, 0);
}

proof fn lemma_commands(id: Seq<char>, cs: Seq<CommandView>, n: int)
    requires
        0 <= n <= cs.len(),
        commands_problem(id, cs, n) is None,
    ensures
        forall|i: int| n <= i < cs.len() ==> command_problem(id, #[trigger] cs[i]) is None,
        forall|i: int, j: int|
            n <= j < cs.len() && 0 <= i < j ==> (#[trigger] cs[i]).name != (#[trigger] cs[j]).name,
    decreases cs.len() - n,
{
    if n < cs.len() {
        lemma_commands(id, cs, n + 1);
    }
}

proof fn lemma_permissions(id: Seq<char>, ps: Seq<Permission>, n: int)
    requires
        0 <= n <= ps.len(),
        permissions_problem(id, ps, n) is None,
    ensures
        forall|i: int| n <= i < ps.len() ==> (#[trigger] ps[i]).supported(),
    decreases ps.len() - n,
{
    if n < ps.len() {
        lemma_permissions(id, ps, n + 1);
    }
}

} // verus!
