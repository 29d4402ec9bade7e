//! Which manifests are valid, what is said of the others, and how a manifest is sent.

use vstd::prelude::*;

use crate::json::{lemma_find_at, text_array, JsonView};
use crate::manifest::{
    any_blank, command_json, command_problem, commands_problem, has_segments, manifest_json,
    manifest_problem, path_in, permissions_problem, segments_valid, CommandView, Isolation,
    ManifestView, Permission, TriggerType,
};
use crate::pattern::regex_problem;
use crate::text::{blank, is_white};

verus! {

/// Whether a text holds something other than white space.
pub open spec fn says_something(s: Seq<char>) -> bool {
    exists|i: int| 0 <= i < s.len() && !is_white(#[trigger] s[i])
}

/// Whether an id is that of a reverse domain: letters, digits, hyphens and underscores,
/// in at least two parts with a dot between them, none of which is empty.
pub open spec fn is_reverse_domain(id: Seq<char>) -> bool {
    &&& exists|i: int| 0 < i < id.len() - 1 && #[trigger] id[i] == '.'
    &&& forall|i: int|
        0 <= i < id.len() ==> {
            ||| ('a' <= #[trigger] id[i] && id[i] <= 'z')
            ||| ('A' <= id[i] && id[i] <= 'Z')
            ||| ('0' <= id[i] && id[i] <= '9')
            ||| id[i] == '-'
            ||| id[i] == '_'
            ||| (id[i] == '.' && 0 < i < id.len() - 1 && id[i - 1] != '.')
        }
}

/// Whether a command is valid: it has a name, a title and no empty keyword, and its
/// trigger has the value that its kind takes.
pub open spec fn is_valid_command(c: CommandView) -> bool {
    &&& says_something(c.name) && says_something(c.title)
    &&& forall|i: int| 0 <= i < c.keywords.len() ==> says_something(#[trigger] c.keywords[i])
    &&& match c.kind {
        TriggerType::Command => c.value is None,
        TriggerType::Prefix => c.value matches Some(v) && v.len() > 0,
        TriggerType::Regex => c.value matches Some(v) && v.len() > 0 && regex_problem(v) is None,
        TriggerType::Dynamic => true,
    }
}

/// Whether a manifest is valid.
pub open spec fn is_valid_manifest(m: ManifestView) -> bool {
    &&& is_reverse_domain(m.id)
    &&& says_something(m.name) && says_something(m.version)
    &&& m.icon matches Some(icon) ==> says_something(icon)
    &&& forall|i: int| 0 <= i < m.fs_roots.len() ==> says_something(#[trigger] m.fs_roots[i])
    &&& m.commands.len() > 0
    &&& forall|i: int| 0 <= i < m.commands.len() ==> is_valid_command(#[trigger] m.commands[i])
    &&& forall|i: int, j: int|
        0 <= i < j < m.commands.len() ==> (#[trigger] m.commands[i]).name != (
        #[trigger] m.commands[j]).name
    &&& forall|i: int|
        0 <= i < m.permissions.len() ==> #[trigger] m.permissions[i] != Permission::Network
}

proof fn lemma_blank(s: Seq<char>)
    ensures
        blank(s) <==> !says_something(s),
{
}

proof fn lemma_any_blank(v: Seq<Seq<char>>)
    ensures
        any_blank(v) <==> !(forall|i: int| 0 <= i < v.len() ==> says_something(#[trigger] v[i])),
{
    assert forall|i: int| 0 <= i < v.len() implies blank(#[trigger] v[i]) == !says_something(
        v[i],
    ) by {
        lemma_blank(v[i]);
    }
    if any_blank(v) {
        let i = choose|i: int| 0 <= i < v.len() && blank(#[trigger] v[i]);
        assert(!says_something(v[i]));
    }
}

proof fn lemma_id(id: Seq<char>)
    ensures
        is_reverse_domain(id) <==> has_segments(id) && segments_valid(id),
        is_reverse_domain(id) ==> !blank(id),
{
    if is_reverse_domain(id) {
        let i = choose|i: int| 0 < i < id.len() - 1 && #[trigger] id[i] == '.';
        assert(has_segments(id));
        assert(!is_white(id[i]));
        assert(id[0] != '.');
        assert(id[id.len() - 1] != '.');
        assert forall|k: int| 0 <= k < id.len() implies crate::manifest::is_id_char(
            #[trigger] id[k],
        ) || id[k] == '.' by {}
        assert forall|k: int| 0 < k < id.len() && #[trigger] id[k] == '.' implies id[k - 1]
            != '.' by {}
    }
    if has_segments(id) && segments_valid(id) {
        let i = choose|i: int| 0 <= i < id.len() && #[trigger] id[i] == '.';
        assert(0 < i < id.len() - 1);
        assert forall|k: int| 0 <= k < id.len() implies {
            ||| ('a' <= #[trigger] id[k] && id[k] <= 'z')
            ||| ('A' <= id[k] && id[k] <= 'Z')
            ||| ('0' <= id[k] && id[k] <= '9')
            ||| id[k] == '-'
            ||| id[k] == '_'
            ||| (id[k] == '.' && 0 < k < id.len() - 1 && id[k - 1] != '.')
        } by {
            assert(crate::manifest::is_id_char(id[k]) || id[k] == '.');
        }
    }
}

proof fn lemma_command(id: Seq<char>, c: CommandView)
    ensures
        command_problem(id, c) is None <==> is_valid_command(c),
{
    lemma_blank(c.name);
    lemma_blank(c.title);
    lemma_any_blank(c.keywords);
}

proof fn lemma_commands(id: Seq<char>, cs: Seq<CommandView>, n: int)
    requires
        0 <= n <= cs.len(),
    ensures
        commands_problem(id, cs, n) is None <==> {
            &&& forall|i: int| n <= i < cs.len() ==> is_valid_command(#[trigger] cs[i])
            &&& forall|i: int, j: int|
                0 <= i < j < cs.len() && n <= j ==> (#[trigger] cs[i]).name != (
                #[trigger] cs[j]).name
        },
    decreases cs.len() - n,
{
    if n < cs.len() {
        lemma_command(id, cs[n]);
        lemma_commands(id, cs, n + 1);
        if exists|j: int| 0 <= j < n && #[trigger] cs[j].name == cs[n].name {
            let j = choose|j: int| 0 <= j < n && #[trigger] cs[j].name == cs[n].name;
            assert(cs[j].name == cs[n].name);
        }
    }
}

proof fn lemma_permissions(id: Seq<char>, ps: Seq<Permission>, n: int)
    requires
        0 <= n <= ps.len(),
    ensures
        permissions_problem(id, ps, n) is None <==> forall|i: int|
            n <= i < ps.len() ==> #[trigger] ps[i] != Permission::Network,
    decreases ps.len() - n,
{
    if n < ps.len() {
        lemma_permissions(id, ps, n + 1);
    }
}

/// A manifest passes exactly where it is valid: a reverse domain as its id, a name and a
/// version, no empty icon or root, at least one command, valid commands with names of
/// their own, and no permission for network access.
pub proof fn valid_manifests_pass(m: ManifestView)
    ensures
        manifest_problem(m) is None <==> is_valid_manifest(m),
{
    lemma_id(m.id);
    lemma_blank(m.name);
    lemma_blank(m.version);
    if m.icon is Some {
        lemma_blank(m.icon->0);
    }
    lemma_any_blank(m.fs_roots);
    lemma_commands(m.id, m.commands, 0);
    lemma_permissions(m.id, m.permissions, 0);
}

/// A command passes exactly where it is valid.
pub proof fn valid_commands_pass(id: Seq<char>, c: CommandView)
    ensures
        command_problem(id, c) is None <==> is_valid_command(c),
{
    lemma_command(id, c);
}

/// What is said of a manifest that does not pass: the first thing that is wrong, with
/// the id of the plugin.
pub proof fn first_problem_is_told(m: ManifestView)
    ensures
        !says_something(m.id) ==> manifest_problem(m) == Some("id must not be empty"@),
        ({
            let dotted = exists|i: int| 0 <= i < m.id.len() && #[trigger] m.id[i] == '.';
            let who = "plugin '"@ + m.id;
            &&& says_something(m.id) && !dotted ==> manifest_problem(m) == Some(
                "id '"@ + m.id
                    + "' must be a reverse-domain (at least two dot-separated segments)"@,
            )
            &&& says_something(m.id) && dotted && !is_reverse_domain(m.id) ==> manifest_problem(m)
                == Some(
                "id '"@ + m.id + "' has an invalid segment (letters, digits, '-' and '_' only)"@,
            )
            &&& is_reverse_domain(m.id) && !says_something(m.name) ==> manifest_problem(m) == Some(
                who + "': name must not be empty"@,
            )
            &&& is_reverse_domain(m.id) && says_something(m.name) && !says_something(m.version)
                ==> manifest_problem(m) == Some(who + "': version must not be empty"@)
            &&& is_reverse_domain(m.id) && says_something(m.name) && says_something(m.version) ==> {
                &&& m.icon is Some && !says_something(m.icon->0) ==> manifest_problem(m) == Some(
                    who + "': icon must not be empty when present"@,
                )
                &&& (m.icon is Some ==> says_something(m.icon->0)) && any_blank(m.fs_roots)
                    ==> manifest_problem(m) == Some(
                    who + "': fs_roots must not contain empty paths"@,
                )
                &&& (m.icon is Some ==> says_something(m.icon->0)) && !any_blank(m.fs_roots)
                    && m.commands.len() == 0 ==> manifest_problem(m) == Some(
                    who + "': at least one command is required"@,
                )
            }
        }),
{
    lemma_id(m.id);
    lemma_blank(m.id);
    lemma_blank(m.name);
    lemma_blank(m.version);
    if m.icon is Some {
        lemma_blank(m.icon->0);
    }
}

/// What is said of a command that does not pass: the first thing that is wrong, with the
/// ids of the plugin and the command.
pub proof fn first_problem_of_a_command_is_told(id: Seq<char>, c: CommandView)
    ensures
        ({
            let who = "plugin '"@ + id + "': command '"@ + c.name;
            let texts = says_something(c.name) && says_something(c.title) && !any_blank(c.keywords);
            &&& !says_something(c.name) ==> command_problem(id, c) == Some(
                "plugin '"@ + id + "': command name must not be empty"@,
            )
            &&& says_something(c.name) && !says_something(c.title) ==> command_problem(id, c)
                == Some(who + "' title must not be empty"@)
            &&& says_something(c.name) && says_something(c.title) && any_blank(c.keywords)
                ==> command_problem(id, c) == Some(who + "' keyword must not be empty"@)
            &&& texts && c.kind == TriggerType::Command && c.value is Some ==> command_problem(
                id,
                c,
            ) == Some(who + "' trigger of type 'command' takes no value"@)
            &&& texts && c.kind == TriggerType::Prefix && (c.value is None || c.value->0.len() == 0)
                ==> command_problem(id, c) == Some(
                who + "' trigger of type '"@ + "prefix"@ + "' requires a value"@,
            )
            &&& texts && c.kind == TriggerType::Regex && (c.value is None || c.value->0.len() == 0)
                ==> command_problem(id, c) == Some(
                who + "' trigger of type '"@ + "regex"@ + "' requires a value"@,
            )
            &&& texts && c.kind == TriggerType::Regex && c.value is Some && c.value->0.len() > 0
                && regex_problem(c.value->0) is Some ==> command_problem(id, c) == Some(
                who + "' has an invalid regex: "@ + regex_problem(c.value->0)->0,
            )
        }),
{
    lemma_blank(c.name);
    lemma_blank(c.title);
}

/// Of several faulty commands the first is told: what is wrong with it, or that it has
/// the name of an earlier one.
pub proof fn first_faulty_command_is_told(id: Seq<char>, cs: Seq<CommandView>, from: int, n: int)
    requires
        0 <= from <= n < cs.len(),
        forall|i: int| from <= i < n ==> is_valid_command(#[trigger] cs[i]),
        forall|i: int, j: int|
            0 <= i < j < n && from <= j ==> (#[trigger] cs[i]).name != (#[trigger] cs[j]).name,
    ensures
        !is_valid_command(cs[n]) ==> commands_problem(id, cs, from) == command_problem(id, cs[n]),
        is_valid_command(cs[n]) && (exists|j: int|
            0 <= j < n && (#[trigger] cs[j]).name == cs[n].name) ==> commands_problem(id, cs, from)
            == Some("plugin '"@ + id + "': duplicate command name '"@ + cs[n].name + "'"@),
    decreases n - from,
{
    lemma_command(id, cs[from]);
    if from < n {
        first_faulty_command_is_told(id, cs, from + 1, n);
        assert forall|j: int| 0 <= j < from implies (#[trigger] cs[j]).name != cs[from].name by {}
    } else {
        if exists|j: int| 0 <= j < n && (#[trigger] cs[j]).name == cs[n].name {
            let j = choose|j: int| 0 <= j < n && (#[trigger] cs[j]).name == cs[n].name;
            assert(cs[j].name == cs[n].name);
        }
    }
}

/// Network access is the one permission that is not supported, and it is told by its
/// name.
pub proof fn network_access_is_refused(id: Seq<char>, ps: Seq<Permission>)
    requires
        ps.contains(Permission::Network),
    ensures
        permissions_problem(id, ps, 0) == Some(
            "plugin '"@ + id + "': permission '"@ + "network"@ + "' is not supported in M3"@,
        ),
{
    let n = choose|n: int| 0 <= n < ps.len() && ps[n] == Permission::Network;
    lemma_refused(id, ps, 0, n);
}

proof fn lemma_refused(id: Seq<char>, ps: Seq<Permission>, from: int, n: int)
    requires
        0 <= from <= n < ps.len(),
        ps[n] == Permission::Network,
    ensures
        permissions_problem(id, ps, from) == Some(
            "plugin '"@ + id + "': permission '"@ + "network"@ + "' is not supported in M3"@,
        ),
    decreases n - from,
{
    if from < n && ps[from] != Permission::Network {
        lemma_refused(id, ps, from + 1, n);
    }
}

/// The names of permissions, triggers and isolation levels in a manifest.
pub proof fn names_in_manifests(p: Permission, t: TriggerType, i: Isolation)
    ensures
        p.supported() <==> p != Permission::Network,
        p.wire_name() == (match p {
            Permission::ClipboardRead => "clipboard.read"@,
            Permission::ClipboardWrite => "clipboard.write"@,
            Permission::ClipboardHistory => "clipboard.history"@,
            Permission::OpenUrl => "open.url"@,
            Permission::OpenPath => "open.path"@,
            Permission::Network => "network"@,
            Permission::FsRead => "fs.read"@,
            Permission::FsWrite => "fs.write"@,
        }),
        t.wire_name() == (match t {
            TriggerType::Command => "command"@,
            TriggerType::Prefix => "prefix"@,
            TriggerType::Regex => "regex"@,
            TriggerType::Dynamic => "dynamic"@,
        }),
        i.wire_name() == (match i {
            Isolation::SharedPool => "shared-pool"@,
            Isolation::DedicatedProcess => "dedicated-process"@,
        }),
{
}

proof fn lemma_field_names()
    ensures
        "id"@.len() == 2,
        "name"@.len() == 4 && "name"@[0] == 'n',
        "icon"@.len() == 4 && "icon"@[0] == 'i',
        "type"@.len() == 4,
        "value"@.len() == 5 && "value"@[0] == 'v',
        "title"@.len() == 5 && "title"@[0] == 't',
        "version"@.len() == 7,
        "trigger"@.len() == 7,
        "fs_roots"@.len() == 8 && "fs_roots"@[0] == 'f',
        "commands"@.len() == 8 && "commands"@[0] == 'c',
        "keywords"@.len() == 8,
        "isolation"@.len() == 9,
        "detachable"@.len() == 10,
        "permissions"@.len() == 11,
{
    reveal_strlit("id");
    reveal_strlit("name");
    reveal_strlit("icon");
    reveal_strlit("type");
    reveal_strlit("value");
    reveal_strlit("title");
    reveal_strlit("version");
    reveal_strlit("trigger");
    reveal_strlit("fs_roots");
    reveal_strlit("commands");
    reveal_strlit("keywords");
    reveal_strlit("isolation");
    reveal_strlit("detachable");
    reveal_strlit("permissions");
}

/// A command is sent with its name, its title and its trigger, and with what else it
/// has: a value for the trigger, keywords, and that it may have a window of its own.
pub proof fn commands_are_sent_whole(c: CommandView)
    ensures
        ({
            let j = command_json(c);
            &&& j.text_field("name"@) == Some(c.name)
            &&& j.text_field("title"@) == Some(c.title)
            &&& j.field("trigger"@) is Some
            &&& j.field("trigger"@)->0.text_field("type"@) == Some(c.kind.wire_name())
            &&& j.field("trigger"@)->0.text_field("value"@) == c.value
            &&& j.truth_field("detachable"@) == (if c.detachable {
                Some(true)
            } else {
                None
            })
            &&& j.field("keywords"@) == (if c.keywords.len() > 0 {
                Some(text_array(c.keywords))
            } else {
                None
            })
        }),
{
    lemma_field_names();
    let fields = command_json(c)->Object_0;
    lemma_find_at(fields, "name"@, 0);
    lemma_find_at(fields, "title"@, 1);
    lemma_find_at(fields, "trigger"@, 2);
    let trigger = fields[2].1->Object_0;
    lemma_find_at(trigger, "type"@, 0);
    lemma_find_at(trigger, "value"@, 1);
    if c.detachable {
        lemma_find_at(fields, "detachable"@, 3);
        lemma_find_at(fields, "keywords"@, 4);
    } else {
        lemma_find_at(fields, "detachable"@, fields.len() as int);
        lemma_find_at(fields, "keywords"@, 3);
    }
}

/// A manifest is sent with all it says: its id, name and version, its icon and roots
/// where it has any, its commands and permissions in order, and its isolation level.
pub proof fn manifests_are_sent_whole(m: ManifestView)
    ensures
        ({
            let j = manifest_json(m);
            &&& j.text_field("id"@) == Some(m.id)
            &&& j.text_field("name"@) == Some(m.name)
            &&& j.text_field("version"@) == Some(m.version)
            &&& j.text_field("icon"@) == m.icon
            &&& j.field("fs_roots"@) == (if m.fs_roots.len() > 0 {
                Some(text_array(m.fs_roots))
            } else {
                None
            })
            &&& j.text_field("isolation"@) == Some(m.isolation.wire_name())
            &&& match j.items_field("commands"@) {
                Some(items) => items.len() == m.commands.len() && forall|i: int|
                    0 <= i < items.len() ==> #[trigger] items[i] == command_json(m.commands[i]),
                None => false,
            }
            &&& match j.items_field("permissions"@) {
                Some(items) => items.len() == m.permissions.len() && forall|i: int|
                    0 <= i < items.len() ==> #[trigger] items[i] == JsonView::Str(
                        m.permissions[i].wire_name(),
                    ),
                None => false,
            }
        }),
{
    lemma_field_names();
    let fields = manifest_json(m)->Object_0;
    lemma_find_at(fields, "id"@, 0);
    lemma_find_at(fields, "name"@, 1);
    lemma_find_at(fields, "version"@, 2);
    let a: int = if m.icon is Some {
        4
    } else {
        3
    };
    let b: int = a + if m.fs_roots.len() > 0 {
        1int
    } else {
        0
    };
    if m.icon is Some {
        lemma_find_at(fields, "icon"@, 3);
    } else {
        lemma_find_at(fields, "icon"@, fields.len() as int);
    }
    if m.fs_roots.len() > 0 {
        lemma_find_at(fields, "fs_roots"@, a);
    } else {
        lemma_find_at(fields, "fs_roots"@, fields.len() as int);
    }
    lemma_find_at(fields, "commands"@, b);
    lemma_find_at(fields, "permissions"@, b + 1);
    lemma_find_at(fields, "isolation"@, b + 2);
}

/// A list of texts is sent text by text.
pub proof fn texts_are_sent_in_order(v: Seq<Seq<char>>)
    ensures
        match text_array(v) {
            JsonView::Array(items) => items.len() == v.len() && forall|i: int|
                0 <= i < v.len() ==> #[trigger] items[i] == JsonView::Str(v[i]),
            _ => false,
        },
{
}

/// A file of a directory is named by the directory, a slash and the file.
pub proof fn files_are_named_below_their_directory(dir: Seq<char>, file: Seq<char>)
    ensures
        dir.len() > 0 && dir.last() != '/' ==> path_in(dir, file) == dir + seq!['/'] + file,
        dir.len() == 0 || dir.last() == '/' ==> path_in(dir, file) == dir + file,
{
    assert(dir.push('/') + file =~= dir + seq!['/'] + file);
}

} // verus!
