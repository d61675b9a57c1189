//! Rewriting a desktop configuration file so that a configured MCP
//! server is launched through this interceptor: the server's command
//! moves into the argument list behind `run --`, and the command
//! becomes the interceptor binary.  Reading and writing the file is
//! the caller's business; the rewrite itself is a pure function on
//! the parsed document.
use vstd::prelude::*;

use crate::canon::copy_value;
use crate::json::{members_view, Jv, JsonValue};
use crate::order::{bytes_eq, copy_bytes};
use crate::parser::{find_first, obj_first};

verus! {

pub open spec fn k_mcp_servers() -> Seq<u8> {
    seq![0x6du8, 0x63u8, 0x70u8, 0x53u8, 0x65u8, 0x72u8, 0x76u8, 0x65u8, 0x72u8, 0x73u8]
}

pub fn kb_mcp_servers() -> (r: Vec<u8>)
    ensures
        r@ == k_mcp_servers(),
{
    let v: Vec<u8> = vec![0x6du8, 0x63u8, 0x70u8, 0x53u8, 0x65u8, 0x72u8, 0x76u8, 0x65u8, 0x72u8, 0x73u8];
    proof {
        assert(v@ =~= k_mcp_servers());
    }
    v
}

pub open spec fn k_command() -> Seq<u8> {
    seq![0x63u8, 0x6fu8, 0x6du8, 0x6du8, 0x61u8, 0x6eu8, 0x64u8]
}

pub fn kb_command() -> (r: Vec<u8>)
    ensures
        r@ == k_command(),
{
    let v: Vec<u8> = vec![0x63u8, 0x6fu8, 0x6du8, 0x6du8, 0x61u8, 0x6eu8, 0x64u8];
    proof {
        assert(v@ =~= k_command());
    }
    v
}

pub open spec fn k_args() -> Seq<u8> {
    seq![0x61u8, 0x72u8, 0x67u8, 0x73u8]
}

pub fn kb_args() -> (r: Vec<u8>)
    ensures
        r@ == k_args(),
{
    let v: Vec<u8> = vec![0x61u8, 0x72u8, 0x67u8, 0x73u8];
    proof {
        assert(v@ =~= k_args());
    }
    v
}

pub open spec fn k_run_arg() -> Seq<u8> {
    seq![0x72u8, 0x75u8, 0x6eu8]
}

pub fn kb_run_arg() -> (r: Vec<u8>)
    ensures
        r@ == k_run_arg(),
{
    let v: Vec<u8> = vec![0x72u8, 0x75u8, 0x6eu8];
    proof {
        assert(v@ =~= k_run_arg());
    }
    v
}

pub open spec fn k_dashes() -> Seq<u8> {
    seq![0x2du8, 0x2du8]
}

pub fn kb_dashes() -> (r: Vec<u8>)
    ensures
        r@ == k_dashes(),
{
    let v: Vec<u8> = vec![0x2du8, 0x2du8];
    proof {
        assert(v@ =~= k_dashes());
    }
    v
}

#[derive(Clone, Copy, PartialEq, Eq, Structural, Debug)]
pub enum ConfigError {
    /// The document has no `mcpServers` object.
    MissingServers,
    /// The named server is not configured.
    ServerNotFound,
    /// The server entry has no usable command and argument list.
    BadShape,
}

/// The member list with every member of the given key replaced by
/// the given value.
pub open spec fn set_member(m: Seq<(Seq<u8>, Jv)>, k: Seq<u8>, v: Jv) -> Seq<(Seq<u8>, Jv)> {
    Seq::new(
        m.len(),
        |i: int|
            if 0 <= i < m.len() {
                if m[i].0 == k {
                    (m[i].0, v)
                } else {
                    m[i]
                }
            } else {
                (Seq::empty(), Jv::Null)
            },
    )
}

/// The rewritten configuration: the named server's command becomes
/// `path`, and its arguments become `run -- <old command> <old
/// args>`.
pub open spec fn rewrite_config_spec(c: Jv, name: Seq<u8>, path: Seq<u8>) -> Result<
    Jv,
    ConfigError,
> {
    match c {
        Jv::Obj(top) => {
            match obj_first(top, k_mcp_servers()) {
                Some(Jv::Obj(servers)) => {
                    match obj_first(servers, name) {
                        Some(Jv::Obj(server)) => {
                            match (obj_first(server, k_command()), obj_first(server, k_args())) {
                                (Some(Jv::Str(cmd)), Some(Jv::Arr(args))) => {
                                    let new_args = seq![
                                        Jv::Str(k_run_arg()),
                                        Jv::Str(k_dashes()),
                                        Jv::Str(cmd),
                                    ] + args;
                                    let server2 = set_member(
                                        set_member(server, k_command(), Jv::Str(path)),
                                        k_args(),
                                        Jv::Arr(new_args),
                                    );
                                    let servers2 = set_member(servers, name, Jv::Obj(server2));
                                    Ok(Jv::Obj(set_member(top, k_mcp_servers(), Jv::Obj(servers2))))
                                },
                                _ => Err(ConfigError::BadShape),
                            }
                        },
                        Some(_) => Err(ConfigError::BadShape),
                        None => Err(ConfigError::ServerNotFound),
                    }
                },
                Some(_) => Err(ConfigError::MissingServers),
                None => Err(ConfigError::MissingServers),
            }
        },
        _ => Err(ConfigError::MissingServers),
    }
}

/// Replaces every member of the given key with the given value.
#[verifier::loop_isolation(false)]
fn set_member_exec(m: &Vec<(Vec<u8>, JsonValue)>, k: &Vec<u8>, v: &JsonValue) -> (r: Vec<
    (Vec<u8>, JsonValue),
>)
    ensures
        members_view(r@) == set_member(members_view(m@), k@, v.deep_view()),
{
    let ghost mv = members_view(m@);
    let mut out: Vec<(Vec<u8>, JsonValue)> = Vec::new();
    let mut i: usize = 0;
    while i < m.len()
        invariant
            i <= m@.len(),
            out@.len() == i,
            forall|j: int|
                0 <= j < i ==> #[trigger] members_view(out@)[j] == set_member(
                    mv,
                    k@,
                    v.deep_view(),
                )[j],
        decreases m@.len() - i,
    {
        let ghost pre = out@;
        if bytes_eq(&m[i].0, k) {
            out.push((copy_bytes(&m[i].0), copy_value(v)));
        } else {
            out.push((copy_bytes(&m[i].0), copy_value(&m[i].1)));
        }
        proof {
            assert forall|j: int|
                0 <= j < i + 1 implies #[trigger] members_view(out@)[j] == set_member(
                mv,
                k@,
                v.deep_view(),
            )[j] by {
                if j < i {
                    assert(members_view(out@)[j] == members_view(pre)[j]);
                } else {
                    assert(members_view(out@)[j] == (out@[j].0@, out@[j].1.deep_view()));
                    assert(mv[j] == (m@[j].0@, m@[j].1.deep_view()));
                }
            }
        }
        i = i + 1;
    }
    proof {
        assert(members_view(out@) =~= set_member(mv, k@, v.deep_view()));
    }
    out
}

/// Rewrites the configuration so the named server is launched
/// through the interceptor at `sentinel_path`.
pub fn rewrite_config(config: &JsonValue, server_name: &Vec<u8>, sentinel_path: &Vec<u8>) -> (r:
    Result<JsonValue, ConfigError>)
    ensures
        match r {
            Ok(v) => rewrite_config_spec(config.deep_view(), server_name@, sentinel_path@) == Ok::<
                Jv,
                ConfigError,
            >(v.deep_view()),
            Err(e) => rewrite_config_spec(config.deep_view(), server_name@, sentinel_path@)
                == Err::<Jv, ConfigError>(e),
        },
{
    let top = match config {
        JsonValue::Obj(m) => m,
        _ => {
            return Err(ConfigError::MissingServers);
        },
    };
    proof {
        assert(config.deep_view()->Obj_0 =~= members_view(top@));
    }
    let ghost topv = members_view(top@);
    let servers_val = match find_first(top, &kb_mcp_servers()) {
        Some(v) => v,
        None => {
            return Err(ConfigError::MissingServers);
        },
    };
    let servers = match servers_val {
        JsonValue::Obj(m) => m,
        JsonValue::Null => {
            return Err(ConfigError::MissingServers);
        },
        JsonValue::Bool(_) => {
            return Err(ConfigError::MissingServers);
        },
        JsonValue::Num(_) => {
            return Err(ConfigError::MissingServers);
        },
        JsonValue::Str(_) => {
            return Err(ConfigError::MissingServers);
        },
        JsonValue::Arr(_) => {
            return Err(ConfigError::MissingServers);
        },
    };
    proof {
        assert(servers_val.deep_view()->Obj_0 =~= members_view(servers@));
        assert(obj_first(topv, k_mcp_servers()) == Some(Jv::Obj(members_view(servers@))));
    }
    let ghost serversv = members_view(servers@);
    let server_val = match find_first(servers, server_name) {
        Some(v) => v,
        None => {
            return Err(ConfigError::ServerNotFound);
        },
    };
    let server = match server_val {
        JsonValue::Obj(m) => m,
        JsonValue::Null => {
            return Err(ConfigError::BadShape);
        },
        JsonValue::Bool(_) => {
            return Err(ConfigError::BadShape);
        },
        JsonValue::Num(_) => {
            return Err(ConfigError::BadShape);
        },
        JsonValue::Str(_) => {
            return Err(ConfigError::BadShape);
        },
        JsonValue::Arr(_) => {
            return Err(ConfigError::BadShape);
        },
    };
    proof {
        assert(server_val.deep_view()->Obj_0 =~= members_view(server@));
        assert(obj_first(serversv, server_name@) == Some(Jv::Obj(members_view(server@))));
    }
    let ghost serverv = members_view(server@);
    let cmd_val = match find_first(server, &kb_command()) {
        Some(v) => v,
        None => {
            return Err(ConfigError::BadShape);
        },
    };
    let cmd = match cmd_val {
        JsonValue::Str(s) => s,
        _ => {
            return Err(ConfigError::BadShape);
        },
    };
    let args_val = match find_first(server, &kb_args()) {
        Some(v) => v,
        None => {
            return Err(ConfigError::BadShape);
        },
    };
    let args = match args_val {
        JsonValue::Arr(a) => a,
        _ => {
            return Err(ConfigError::BadShape);
        },
    };
    proof {
        assert(obj_first(serverv, k_command()) == Some(Jv::Str(cmd@)));
        assert(args_val.deep_view()->Arr_0 =~= crate::json::elems_view(args@));
        assert(obj_first(serverv, k_args()) == Some(Jv::Arr(crate::json::elems_view(args@))));
    }
    // the new argument list: run -- <old command> <old args>
    let ghost old_args_view = crate::json::elems_view(args@);
    let mut new_args: Vec<JsonValue> = Vec::new();
    new_args.push(JsonValue::Str(kb_run_arg()));
    new_args.push(JsonValue::Str(kb_dashes()));
    new_args.push(JsonValue::Str(copy_bytes(cmd)));
    let mut i: usize = 0;
    while i < args.len()
        invariant
            i <= args@.len(),
            new_args@.len() == i + 3,
            new_args@[0].deep_view() == Jv::Str(k_run_arg()),
            new_args@[1].deep_view() == Jv::Str(k_dashes()),
            new_args@[2].deep_view() == Jv::Str(cmd@),
            forall|j: int|
                0 <= j < i ==> #[trigger] new_args@[j + 3].deep_view() == args@[j].deep_view(),
        decreases args@.len() - i,
    {
        let c = copy_value(&args[i]);
        new_args.push(c);
        i = i + 1;
    }
    let new_args_value = JsonValue::Arr(new_args);
    proof {
        let expect = seq![Jv::Str(k_run_arg()), Jv::Str(k_dashes()), Jv::Str(cmd@)] + crate::json::elems_view(args@);
        assert forall|j: int|
            0 <= j < new_args_value.deep_view()->Arr_0.len() implies new_args_value.deep_view()->Arr_0[j]
            == expect[j] by {
            assert(new_args_value.deep_view()->Arr_0[j] == new_args@[j].deep_view());
            if j >= 3 {
                assert(new_args@[(j - 3) + 3].deep_view() == args@[j - 3].deep_view());
            }
        }
        assert(new_args_value.deep_view()->Arr_0 =~= expect);
    }
    let server2 = set_member_exec(server, &kb_command(), &JsonValue::Str(copy_bytes(sentinel_path)));
    let server3 = set_member_exec(&server2, &kb_args(), &new_args_value);
    let ghost spec_args = seq![Jv::Str(k_run_arg()), Jv::Str(k_dashes()), Jv::Str(cmd@)]
        + crate::json::elems_view(args@);
    let ghost server2spec = set_member(
        set_member(serverv, k_command(), Jv::Str(sentinel_path@)),
        k_args(),
        Jv::Arr(spec_args),
    );
    proof {
        assert(new_args_value.deep_view() =~= Jv::Arr(spec_args));
        assert(members_view(server2@) == set_member(serverv, k_command(), Jv::Str(sentinel_path@)));
        assert(members_view(server3@) == server2spec);
    }
    let servers3 = JsonValue::Obj(server3);
    proof {
        assert(servers3.deep_view()->Obj_0 =~= members_view(server3@));
        assert(servers3.deep_view() =~= Jv::Obj(server2spec));
    }
    let servers2 = set_member_exec(servers, server_name, &servers3);
    let ghost servers2spec = set_member(serversv, server_name@, Jv::Obj(server2spec));
    proof {
        assert(members_view(servers2@) == servers2spec);
    }
    let servers_obj = JsonValue::Obj(servers2);
    proof {
        assert(servers_obj.deep_view()->Obj_0 =~= members_view(servers2@));
        assert(servers_obj.deep_view() =~= Jv::Obj(servers2spec));
    }
    let top2 = set_member_exec(top, &kb_mcp_servers(), &servers_obj);
    let r = JsonValue::Obj(top2);
    proof {
        assert(members_view(top2@) == set_member(topv, k_mcp_servers(), Jv::Obj(servers2spec)));
        assert(r.deep_view()->Obj_0 =~= members_view(top2@));
        assert(r.deep_view() =~= Jv::Obj(
            set_member(topv, k_mcp_servers(), Jv::Obj(servers2spec)),
        ));
        assert(rewrite_config_spec(config.deep_view(), server_name@, sentinel_path@) == Ok::<
            Jv,
            ConfigError,
        >(Jv::Obj(set_member(topv, k_mcp_servers(), Jv::Obj(servers2spec)))));
    }
    Ok(r)
}

} // verus!
