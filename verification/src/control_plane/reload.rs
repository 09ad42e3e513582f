//! Hot reload: what becomes of the state when the configuration file changes.
use crate::clock::monotonic_reading;
use crate::config::types::{file_view, KirinConfig, KirinView};
use crate::config::validation::{
    accepted_exactly_if_sound, config_mistakes, validate_config, MistakeView, ValidationError,
};
use crate::control_plane::gateway_state::laws::{
    changed_state_is_in_sync, in_sync, upstreams_known,
};
use crate::control_plane::gateway_state::model::{
    changed_state, state_of, StateErrorView, StateView,
};
use crate::control_plane::gateway_state::GatewayState;
use crate::model::views;
use crate::str_map::distinct_keys;
use crate::text::join2;
use vstd::prelude::*;

verus! {

/// What was made of the configuration file.
pub enum Loaded {
    /// It could not be read.
    Unreadable(String),
    /// It could not be parsed.
    Unparsable(String),
    /// It holds a configuration.
    Config(KirinConfig),
}

pub enum LoadedView {
    Unreadable(Seq<char>),
    Unparsable(Seq<char>),
    Config(KirinView),
}

impl View for Loaded {
    type V = LoadedView;

    open spec fn view(&self) -> LoadedView {
        match *self {
            Loaded::Unreadable(e) => LoadedView::Unreadable(e@),
            Loaded::Unparsable(e) => LoadedView::Unparsable(e@),
            Loaded::Config(c) => LoadedView::Config(c@),
        }
    }
}

/// The message of a mistake.
pub open spec fn mistake_text(m: MistakeView) -> Seq<char> {
    match m.route_id {
        None => m.field + ": "@ + m.message,
        Some(rid) => "[route="@ + rid + "] "@ + m.field + ": "@ + m.message,
    }
}

/// The messages of a list of mistakes, in one line.
pub open spec fn mistakes_text(mistakes: Seq<MistakeView>) -> Seq<char>
    decreases mistakes.len(),
{
    if mistakes.len() == 0 {
        Seq::empty()
    } else if mistakes.len() == 1 {
        mistake_text(mistakes[0])
    } else {
        mistakes_text(mistakes.drop_last()) + "; "@ + mistake_text(mistakes.last())
    }
}

/// Why a configuration file is not even looked at as a configuration.
pub open spec fn load_error(loaded: LoadedView) -> Option<Seq<char>> {
    match loaded {
        LoadedView::Unreadable(e) => Some("加载失败: "@ + e),
        LoadedView::Unparsable(e) => Some("配置文件解析失败: "@ + e),
        LoadedView::Config(_) => None,
    }
}

/// What a full reload leads to: a state made anew, or the reason why the old one
/// stays.
pub open spec fn full_reload(loaded: LoadedView, key_file: Result<Seq<char>, Seq<char>>) -> Result<
    StateView,
    Seq<char>,
> {
    match loaded {
        LoadedView::Config(config) => match state_of(config, key_file) {
            Ok(state) => Ok(state),
            Err(e) => Err("配置文件校验失败: "@ + e.text()),
        },
        _ => Err(load_error(loaded)->0),
    }
}

/// What an incremental reload leads to, and the reason if it does not succeed. A file
/// that cannot be loaded, and a configuration with mistakes, leave the state as it is.
pub open spec fn incremental_reload(
    state: StateView,
    loaded: LoadedView,
    key_file: Result<Seq<char>, Seq<char>>,
) -> (StateView, Option<Seq<char>>) {
    match loaded {
        LoadedView::Config(config) => if config_mistakes(config).len() > 0 {
            (
                state,
                Some("配置文件校验失败: "@ + mistakes_text(config_mistakes(config))),
            )
        } else {
            let (after, error) = changed_state(state, config, key_file);
            (
                after,
                match error {
                    Some(e) => Some("配置更新失败: "@ + e.text()),
                    None => None,
                },
            )
        },
        _ => (state, load_error(loaded)),
    }
}

/// The messages of a list of mistakes, in one line.
pub fn join_errors(errors: &Vec<ValidationError>) -> (r: String)
    ensures
        r@ == mistakes_text(views(errors@)),
{
    let ghost all = views(errors@);
    let mut r = String::new();
    assert(r@ =~= mistakes_text(all.take(0)));
    let mut i: usize = 0;
    while i < errors.len()
        invariant
            i <= errors@.len(),
            all == views(errors@),
            r@ == mistakes_text(all.take(i as int)),
        decreases errors@.len() - i,
    {
        proof {
            assert(all.take(i + 1).drop_last() =~= all.take(i as int));
            assert(all.take(i + 1).last() == errors@[i as int]@);
        }
        if i > 0 {
            r.append("; ");
        }
        let ghost before = r@;
        r.append(errors[i].to_text().as_str());
        proof {
            if i == 0 {
                assert(before =~= Seq::<char>::empty());
                assert(r@ =~= mistake_text(errors@[0]@));
                assert(all.take(1)[0] == errors@[0]@);
            }
        }
        i += 1;
    }
    assert(all.take(i as int) =~= all);
    r
}

impl GatewayState {
    /// Full reload: replaces the whole state, or leaves it as it is and says why. Token
    /// buckets are not kept.
    pub fn reload_simple(&mut self, loaded: &Loaded, key_file: &Result<String, String>) -> (r:
        Result<(), String>)
        ensures
            match r {
                Ok(_) => full_reload(loaded@, file_view(*key_file)) == Ok::<StateView, Seq<char>>(
                    final(self)@,
                ),
                Err(e) => full_reload(loaded@, file_view(*key_file)) == Err::<
                    StateView,
                    Seq<char>,
                >(e@) && final(self)@ == old(self)@,
            },
            r is Ok ==> (final(self).limiter_origin() matches Some(origin) ==> monotonic_reading(
                origin,
            )),
            r is Err ==> final(self).limiter_origin() == old(self).limiter_origin(),
    {
        match loaded {
            Loaded::Unreadable(e) => Err(join2("加载失败: ", e.as_str())),
            Loaded::Unparsable(e) => Err(join2("配置文件解析失败: ", e.as_str())),
            Loaded::Config(config) => match GatewayState::from_config(config, key_file) {
                Ok(state) => {
                    *self = state;
                    Ok(())
                },
                Err(e) => Err(join2("配置文件校验失败: ", e.to_text().as_str())),
            },
        }
    }

    /// Incremental reload: validates the new configuration and then changes only what
    /// has changed.
    pub fn reload_diff(&mut self, loaded: &Loaded, key_file: &Result<String, String>) -> (r: Result<
        (),
        String,
    >)
        ensures
            final(self)@ == incremental_reload(old(self)@, loaded@, file_view(*key_file)).0,
            match r {
                Ok(_) => incremental_reload(
                    old(self)@,
                    loaded@,
                    file_view(*key_file),
                ).1 is None,
                Err(e) => incremental_reload(old(self)@, loaded@, file_view(*key_file)).1 == Some(
                    e@,
                ),
            },
            loaded@ matches LoadedView::Config(config) ==> (old(self)@.config.rate_limit is Some
                && config.rate_limit is Some ==> final(self).limiter_origin() == old(
                self,
            ).limiter_origin()),
            loaded@ !is Config ==> final(self).limiter_origin() == old(self).limiter_origin(),
    {
        match loaded {
            Loaded::Unreadable(e) => Err(join2("加载失败: ", e.as_str())),
            Loaded::Unparsable(e) => Err(join2("配置文件解析失败: ", e.as_str())),
            Loaded::Config(config) => match validate_config(config) {
                Err(errors) => Err(
                    join2("配置文件校验失败: ", join_errors(&errors).as_str()),
                ),
                Ok(_) => match self.diff_update(config, key_file) {
                    Ok(_) => Ok(()),
                    Err(e) => Err(join2("配置更新失败: ", e.to_text().as_str())),
                },
            },
        }
    }
}

/// A state that follows its configuration follows the new one after an incremental
/// reload that succeeds, and every route of it then names a known upstream.
pub proof fn incremental_reload_is_in_sync(
    state: StateView,
    config: KirinView,
    key_file: Result<Seq<char>, Seq<char>>,
)
    requires
        in_sync(state),
        distinct_keys(config.upstreams),
    ensures
        incremental_reload(state, LoadedView::Config(config), key_file).1 is None ==> ({
            let after = incremental_reload(state, LoadedView::Config(config), key_file).0;
            in_sync(after) && after.config == config && upstreams_known(config)
        }),
{
    accepted_exactly_if_sound(config);
    if config_mistakes(config).len() == 0 {
        changed_state_is_in_sync(state, config, key_file);
        assert forall|i: int| 0 <= i < config.routes.len() implies crate::str_map::has_key(
            config.upstreams,
            (#[trigger] config.routes[i]).upstream,
        ) by {
            assert(crate::config::validation::sound_route(config.routes[i], config.upstreams));
        }
    }
}

/// A file that cannot be read or parsed, and a configuration with mistakes, leave the state
/// as it is, and the reload fails.
pub proof fn bad_files_leave_the_state(
    state: StateView,
    loaded: LoadedView,
    key_file: Result<Seq<char>, Seq<char>>,
)
    requires
        loaded matches LoadedView::Config(config) ==> config_mistakes(config).len() > 0,
    ensures
        incremental_reload(state, loaded, key_file).0 == state,
        incremental_reload(state, loaded, key_file).1 is Some,
        loaded !is Config ==> full_reload(loaded, key_file) is Err,
{
}

/// A configuration without mistakes is put into effect as a change: the reload succeeds if
/// and only if the change does.
pub proof fn sound_configurations_are_put_into_effect(
    state: StateView,
    config: KirinView,
    key_file: Result<Seq<char>, Seq<char>>,
)
    requires
        config_mistakes(config).len() == 0,
    ensures
        incremental_reload(state, LoadedView::Config(config), key_file).0 == changed_state(
            state,
            config,
            key_file,
        ).0,
        incremental_reload(state, LoadedView::Config(config), key_file).1 is None
            <==> changed_state(state, config, key_file).1 is None,
{
}

/// A full reload succeeds if and only if a state can be made from the configuration, and
/// leads to that state, whatever was there before.
pub proof fn full_reload_starts_anew(config: KirinView, key_file: Result<Seq<char>, Seq<char>>)
    ensures
        full_reload(LoadedView::Config(config), key_file) is Ok <==> state_of(
            config,
            key_file,
        ) is Ok,
        full_reload(LoadedView::Config(config), key_file) matches Ok(state) ==> state_of(
            config,
            key_file,
        ) == Ok::<StateView, StateErrorView>(state) && state.config == config,
{
}

/// The message of a failed reload says at which step it failed: the file, its syntax, the
/// configuration, or its putting into effect.
pub proof fn failures_say_where_they_come_from(
    state: StateView,
    e: Seq<char>,
    config: KirinView,
    key_file: Result<Seq<char>, Seq<char>>,
)
    ensures
        incremental_reload(state, LoadedView::Unreadable(e), key_file).1 == Some(
            "加载失败: "@ + e,
        ),
        full_reload(LoadedView::Unreadable(e), key_file) == Err::<StateView, Seq<char>>(
            "加载失败: "@ + e,
        ),
        incremental_reload(state, LoadedView::Unparsable(e), key_file).1 == Some(
            "配置文件解析失败: "@ + e,
        ),
        full_reload(LoadedView::Unparsable(e), key_file) == Err::<StateView, Seq<char>>(
            "配置文件解析失败: "@ + e,
        ),
        config_mistakes(config).len() > 0 ==> incremental_reload(
            state,
            LoadedView::Config(config),
            key_file,
        ).1 == Some("配置文件校验失败: "@ + mistakes_text(config_mistakes(config))),
        config_mistakes(config).len() == 0 ==> (changed_state(
            state,
            config,
            key_file,
        ).1 matches Some(error) ==> incremental_reload(
            state,
            LoadedView::Config(config),
            key_file,
        ).1 == Some("配置更新失败: "@ + error.text())),
        state_of(config, key_file) matches Err(error) ==> full_reload(
            LoadedView::Config(config),
            key_file,
        ) == Err::<StateView, Seq<char>>("配置文件校验失败: "@ + error.text()),
{
}

/// The messages of several mistakes stand one behind the other, with a semicolon between
/// them; a mistake of a route names the route.
pub proof fn mistakes_are_listed_in_order(
    mistakes: Seq<MistakeView>,
    last: MistakeView,
    field: Seq<char>,
    message: Seq<char>,
    id: Seq<char>,
)
    ensures
        mistakes_text(Seq::empty()).len() == 0,
        mistakes_text(seq![last]) == mistake_text(last),
        mistakes.len() > 0 ==> mistakes_text(mistakes.push(last)) == mistakes_text(mistakes)
            + "; "@ + mistake_text(last),
        mistake_text(MistakeView { field, message, route_id: None }) == field + ": "@ + message,
        mistake_text(MistakeView { field, message, route_id: Some(id) }) == "[route="@ + id
            + "] "@ + field + ": "@ + message,
{
    assert(mistakes.push(last).drop_last() =~= mistakes);
    assert(mistakes.push(last).last() == last);
}

} // verus!
