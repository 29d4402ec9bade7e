//! What the values of the library are taken for in its contracts: themselves, field by
//! field and item by item.

use vstd::prelude::*;

use crate::calc::{token_views, Token, TokenView};
use crate::calendar::{date_view, opt_cell, DayCell};
use crate::desktop::var_views;
use crate::engine::{app_views, counts_view, scored_views, AppEntry, ScoredApp};
use crate::host::{
    call_views, event_views, meta_views, outgoing_views, result_view, CallView, EventView,
    HostEvent, Outgoing, QueuedCall,
};
use crate::hotkeys::Hotkey;
use crate::input::{range_view, segment_views, SearchInput, Segment, SegmentView};
use crate::json::{array_view, field_views, item_views, object_view, Json, JsonView};
use crate::launcher::{answer_views, opt_pair, pair_views};
use crate::manifest::{
    command_views, problem_of, ManifestError, PluginCommand, PluginManifest, PluginMeta,
};
use crate::order::{ints, places};
use crate::panel::opt_call;
use crate::protocol::{
    clipboard_views, opt_error, opt_json, opt_message, ClipboardEntry, Message, Notification,
    Request, Response, RpcError,
};
use crate::registry::{found_views, FoundPlugin};
use crate::results::{row_views, ItemView, ResultItem};
use crate::route::{hit_views, RouteHit};
use crate::scanner::{shortcut_views, Shortcut};
use crate::storage::paths_of;
use crate::text::{char_views, opt_view, views};
use crate::views::{
    maybe, seq_views, ActionRef, ActiveCalendar, DetailBlock, FormField, FormOption, FormValue,
    GridItem,
};

verus! {

/// A list of texts is taken for the texts, one by one; an optional text for the text.
pub proof fn texts_are_themselves(
    v: Seq<String>,
    c: Seq<Vec<char>>,
    p: Seq<(String, String)>,
    o: Option<String>,
    q: Option<(String, String)>,
    i: int,
)
    ensures
        views(v).len() == v.len(),
        0 <= i < v.len() ==> views(v)[i] == v[i]@,
        char_views(c).len() == c.len(),
        0 <= i < c.len() ==> char_views(c)[i] == c[i]@,
        pair_views(p).len() == p.len() && var_views(p).len() == p.len(),
        0 <= i < p.len() ==> pair_views(p)[i] == (p[i].0@, p[i].1@) && var_views(p)[i] == (
            p[i].0@,
            p[i].1@,
        ),
        o matches Some(s) ==> opt_view(o) == Some(s@),
        o is None ==> opt_view(o) is None,
        q matches Some(s) ==> opt_pair(q) == Some((s.0@, s.1@)),
        q is None ==> opt_pair(q) is None,
{
}

/// So it is with lists of any values that have a model, and with optional ones.
pub proof fn lists_are_taken_item_by_item<T: View>(v: Seq<T>, o: Option<T>, i: int)
    ensures
        seq_views(v).len() == v.len(),
        0 <= i < v.len() ==> seq_views(v)[i] == v[i]@,
        o matches Some(t) ==> maybe(o) == Some(t@),
        o is None ==> maybe(o) is None,
{
}

/// A number is the same number.
pub proof fn numbers_are_themselves(a: Seq<u64>, b: Seq<usize>, c: Seq<u32>, i: int)
    ensures
        ints(a).len() == a.len() && places(b).len() == b.len() && counts_view(c).len() == c.len(),
        0 <= i < a.len() ==> ints(a)[i] == a[i],
        0 <= i < b.len() ==> places(b)[i] == b[i],
        0 <= i < c.len() ==> counts_view(c)[i] == c[i],
{
}

/// An application is its name and its path; what a query found is its place and its
/// score.
pub proof fn applications_are_themselves(v: Seq<AppEntry>, found: Seq<ScoredApp>, i: int)
    ensures
        app_views(v).len() == v.len(),
        0 <= i < v.len() ==> app_views(v)[i].name == v[i].name@ && app_views(v)[i].path
            == v[i].path@,
        scored_views(found).len() == found.len(),
        0 <= i < found.len() ==> scored_views(found)[i] == (found[i].index as int, found[i].score),
{
}

/// A hit is its plugin, its command with the title, its input and its deadline.
pub proof fn hits_are_themselves(v: Seq<RouteHit>, i: int)
    requires
        0 <= i < v.len(),
    ensures
        hit_views(v).len() == v.len(),
        hit_views(v)[i].plugin_id == v[i].plugin_id@,
        hit_views(v)[i].command == v[i].command@,
        hit_views(v)[i].title == v[i].title@,
        hit_views(v)[i].input == v[i].input@,
        hit_views(v)[i].deadline_ms == v[i].deadline_ms,
        hit_views(v)[i].detachable == v[i].detachable,
{
}

/// A row is what it shows.
pub proof fn rows_are_themselves(v: Seq<ResultItem>, i: int)
    requires
        0 <= i < v.len(),
    ensures
        row_views(v).len() == v.len(),
        row_views(v)[i] == (match v[i] {
            ResultItem::App(app) => ItemView::App(app@),
            ResultItem::Action { title, subtitle } => ItemView::Action {
                title: title@,
                subtitle: subtitle@,
            },
            ResultItem::Link { url, label, command_label } => ItemView::Link {
                url: url@,
                label: label@,
                command_label: command_label@,
            },
            ResultItem::Plugin { plugin_id, command, item_id, title, subtitle } => ItemView::Plugin {
                plugin_id: plugin_id@,
                command: command@,
                item_id: item_id@,
                title: title@,
                subtitle: subtitle@,
            },
            ResultItem::Calendar { plugin_id, command, title, subtitle } => ItemView::Calendar {
                plugin_id: plugin_id@,
                command: command@,
                title: title@,
                subtitle: subtitle@,
            },
            ResultItem::Command { plugin_id, command, title, subtitle } => ItemView::Command {
                plugin_id: plugin_id@,
                command: command@,
                title: title@,
                subtitle: subtitle@,
            },
            ResultItem::Loading { command } => ItemView::Loading { command: command@ },
        }),
{
}

/// A query buffer is its text, its caret, its composition and its selection.
pub proof fn query_buffers_are_themselves(s: SearchInput)
    ensures
        s@.query == s.query@,
        s@.cursor == s.cursor,
        s@.marked == range_view(s.marked),
        s@.selection == range_view(s.selection),
        s.marked matches Some(r) ==> range_view(s.marked) == Some((r.start as int, r.end as int)),
        s.marked is None ==> range_view(s.marked) is None,
{
}

/// A piece of the query as it is shown is its text.
pub proof fn segments_are_themselves(v: Seq<Segment>, i: int)
    requires
        0 <= i < v.len(),
    ensures
        segment_views(v).len() == v.len(),
        segment_views(v)[i] == (match v[i] {
            Segment::Plain(s) => SegmentView::Plain(s@),
            Segment::Composed(s) => SegmentView::Composed(s@),
            Segment::Selected(s) => SegmentView::Selected(s@),
            Segment::Caret => SegmentView::Caret,
        }),
{
}

/// A token is its text.
pub proof fn tokens_are_themselves(v: Seq<Token>, i: int)
    requires
        0 <= i < v.len(),
    ensures
        token_views(v).len() == v.len(),
        token_views(v)[i] == (match v[i] {
            Token::Num(s) => TokenView::Num(s@),
            Token::Sym(c) => TokenView::Sym(c),
        }),
{
}

/// A call is what it was made with.
pub proof fn calls_are_themselves(v: Seq<QueuedCall>, i: int)
    requires
        0 <= i < v.len(),
    ensures
        call_views(v).len() == v.len(),
        call_views(v)[i] == (match v[i] {
            QueuedCall::Command { gen, hit } => CallView::Command { gen, hit: hit@ },
            QueuedCall::Item { plugin_id, command, item_id } => CallView::Item {
                plugin_id: plugin_id@,
                command: command@,
                item_id: item_id@,
            },
            QueuedCall::Action { plugin_id, action_id, item_id } => CallView::Action {
                plugin_id: plugin_id@,
                action_id: action_id@,
                item_id: opt_view(item_id),
            },
            QueuedCall::Submit { plugin_id, values } => CallView::Submit {
                plugin_id: plugin_id@,
                values: values@,
            },
            QueuedCall::Search { gen, plugin_id, command, query } => CallView::Search {
                gen,
                plugin_id: plugin_id@,
                command: command@,
                query: query@,
            },
        }),
{
}

/// An event is what it tells.
pub proof fn events_are_themselves(v: Seq<HostEvent>, i: int, r: Result<Json, RpcError>)
    requires
        0 <= i < v.len(),
    ensures
        event_views(v).len() == v.len(),
        event_views(v)[i] == (match v[i] {
            HostEvent::CommandResult { gen, plugin_id, command, result } => EventView::CommandResult {
                gen,
                plugin_id: plugin_id@,
                command: command@,
                result: result_view(result),
            },
            HostEvent::SearchResult { gen, plugin_id, command, query, result } => {
                EventView::SearchResult {
                    gen,
                    plugin_id: plugin_id@,
                    command: command@,
                    query: query@,
                    result: result_view(result),
                }
            },
            HostEvent::Toast { params } => EventView::Toast { params: params@ },
            HostEvent::ItemView { plugin_id, command, item_id, view } => EventView::ItemView {
                plugin_id: plugin_id@,
                command: command@,
                item_id: item_id@,
                view: view@,
            },
            HostEvent::RuntimeCrashed { plugin_id } => EventView::RuntimeCrashed {
                plugin_id: opt_view(plugin_id),
            },
            HostEvent::RuntimeRestarted { plugin_id } => EventView::RuntimeRestarted {
                plugin_id: opt_view(plugin_id),
            },
        }),
        r matches Ok(j) ==> result_view(r) == Ok::<JsonView, crate::protocol::ErrorView>(j@),
        r matches Err(e) ==> result_view(r) == Err::<JsonView, crate::protocol::ErrorView>(e@),
{
}

/// A message is its fields, and what is to be sent is the request and its connection.
pub proof fn messages_are_themselves(
    v: Seq<Outgoing>,
    i: int,
    request: Request,
    response: Response,
    n: Notification,
    e: RpcError,
)
    ensures
        outgoing_views(v).len() == v.len(),
        0 <= i < v.len() ==> outgoing_views(v)[i].conn_key == v[i].conn_key@ && outgoing_views(
            v,
        )[i].request == v[i].request@,
        request@.jsonrpc == request.jsonrpc@ && request@.id == request.id && request@.method
            == request.method@ && request@.params == request.params@,
        response@.jsonrpc == response.jsonrpc@ && response@.id == response.id && response@.result
            == opt_json(response.result) && response@.error == opt_error(response.error),
        n@.jsonrpc == n.jsonrpc@ && n@.method == n.method@ && n@.params == n.params@,
        e@.code == e.code && e@.message == e.message@,
        response.result matches Some(j) ==> opt_json(response.result) == Some(j@),
        response.result is None ==> opt_json(response.result) is None,
        response.error matches Some(x) ==> opt_error(response.error) == Some(x@),
        response.error is None ==> opt_error(response.error) is None,
{
}

/// A JSON value is what it says.
pub proof fn json_values_are_themselves(
    items: Vec<Json>,
    fields: Vec<(String, Json)>,
    s: String,
    b: bool,
    answers: Seq<Option<Json>>,
    i: int,
)
    ensures
        Json::Null@ == JsonView::Null,
        Json::Bool(b)@ == JsonView::Bool(b),
        Json::Str(s)@ == JsonView::Str(s@),
        Json::Array(items)@ == JsonView::Array(item_views(items@)),
        item_views(items@).len() == items@.len(),
        0 <= i < items@.len() ==> item_views(items@)[i] == items@[i]@,
        Json::Object(fields)@ == JsonView::Object(field_views(fields@)),
        field_views(fields@).len() == fields@.len(),
        0 <= i < fields@.len() ==> field_views(fields@)[i] == (fields@[i].0@, fields@[i].1@),
        answer_views(answers).len() == answers.len(),
        0 <= i < answers.len() ==> answer_views(answers)[i] == opt_json(answers[i]),
{
    array_view(items);
    object_view(fields);
}

/// An entry of the clipboard history is its text and its time; a shortcut is its path and
/// its target.
pub proof fn entries_are_themselves(v: Seq<ClipboardEntry>, links: Seq<Shortcut>, i: int)
    ensures
        clipboard_views(v).len() == v.len(),
        0 <= i < v.len() ==> clipboard_views(v)[i].id == v[i].id@ && clipboard_views(v)[i].text
            == v[i].text@ && clipboard_views(v)[i].copied_at == v[i].copied_at,
        shortcut_views(links).len() == links.len(),
        0 <= i < links.len() ==> shortcut_views(links)[i].path == links[i].path@ && shortcut_views(
            links,
        )[i].target == opt_view(links[i].target),
{
}

/// A manifest is what it says, and so are its commands and the plugin it is of.
pub proof fn manifests_are_themselves(
    m: PluginManifest,
    cs: Seq<PluginCommand>,
    metas: Seq<PluginMeta>,
    found: Seq<FoundPlugin>,
    i: int,
)
    ensures
        m@.id == m.id@ && m@.name == m.name@ && m@.version == m.version@,
        m@.icon == opt_view(m.icon) && m@.fs_roots == views(m.fs_roots@),
        m@.commands == command_views(m.commands@) && m@.permissions == m.permissions@,
        m@.isolation == m.isolation,
        command_views(cs).len() == cs.len(),
        0 <= i < cs.len() ==> {
            let c = command_views(cs)[i];
            &&& c.name == cs[i].name@ && c.title == cs[i].title@
            &&& c.kind == cs[i].trigger.kind && c.value == opt_view(cs[i].trigger.value)
            &&& c.detachable == cs[i].detachable && c.keywords == views(cs[i].keywords@)
        },
        meta_views(metas).len() == metas.len(),
        0 <= i < metas.len() ==> {
            let p = meta_views(metas)[i];
            &&& p.manifest == metas[i].manifest@ && p.dir == metas[i].dir@ && p.entry
                == metas[i].entry@
            &&& p.icon == opt_view(metas[i].icon) && p.scanned_at == metas[i].scanned_at
        },
        found_views(found).len() == found.len(),
        0 <= i < found.len() ==> found_views(found)[i].dir == found[i].dir@,
{
}

/// What a view shows is what it came with.
pub proof fn views_are_themselves(
    a: ActionRef,
    c: ActiveCalendar,
    f: FormField,
    o: FormOption,
    g: GridItem,
    h: Hotkey,
)
    ensures
        a@.id == a.id@ && a@.title == a.title@ && a@.icon == opt_view(a.icon),
        c@.data.year == c.data.year && c@.data.month == c.data.month && c@.data.today
            == c.data.today@ && c@.data.selected == c.data.selected@ && c@.data.start_of_week
            == c.data.start_of_week,
        c@.plugin_id == c.plugin_id@ && c@.command == c.command@ && c@.detachable == c.detachable,
        f@.id == f.id@ && f@.label == f.label@ && f@.kind == f.kind && f@.required == f.required,
        f@.placeholder == opt_view(f.placeholder) && f@.options == seq_views(f.options@)
            && f@.value == maybe(f.value),
        o@.id == o.id@ && o@.label == o.label@,
        g@.id == g.id@ && g@.title == g.title@ && g@.subtitle == opt_view(g.subtitle) && g@.icon
            == opt_view(g.icon) && g@.badge == opt_view(g.badge),
        h@.control == h.control && h@.alt == h.alt && h@.shift == h.shift && h@.meta == h.meta
            && h@.code == h.code@,
{
}

/// A block of a detail view and a value of a form are what they hold.
pub proof fn blocks_and_values_are_themselves(b: DetailBlock, v: FormValue)
    ensures
        b@ == (match b {
            DetailBlock::Text(s) => crate::views::BlockView::Text(s@),
            DetailBlock::Code { value, language } => crate::views::BlockView::Code {
                value: value@,
                language: opt_view(language),
            },
            DetailBlock::Separator => crate::views::BlockView::Separator,
        }),
        v@ == (match v {
            FormValue::String(s) => crate::views::ValueView::String(s@),
            FormValue::Bool(x) => crate::views::ValueView::Bool(x),
        }),
{
}

/// What an operation may give back is taken for that, and nothing for nothing; an error of
/// a manifest for its message, and applications, where only that is asked, for their paths.
pub proof fn answers_are_themselves(
    date: Option<(i32, u32, u32)>,
    cell: Option<DayCell>,
    call: Option<QueuedCall>,
    message: Option<Message>,
    check: Result<(), ManifestError>,
    apps: Seq<AppEntry>,
    i: int,
)
    ensures
        date matches Some((y, m, d)) ==> date_view(date) == Some((y as int, m as int, d as int)),
        date is None ==> date_view(date) is None,
        cell matches Some(c) ==> opt_cell(cell) == Some(c@),
        cell is None ==> opt_cell(cell) is None,
        call matches Some(c) ==> opt_call(call) == Some(c@),
        call is None ==> opt_call(call) is None,
        message matches Some(m) ==> opt_message(message) == Some(m@),
        message is None ==> opt_message(message) is None,
        check matches Err(e) ==> problem_of(check) == Some(e.0@),
        check is Ok ==> problem_of(check) is None,
        paths_of(app_views(apps)).len() == apps.len(),
        0 <= i < apps.len() ==> paths_of(app_views(apps))[i] == apps[i].path@,
{
}

} // verus!
