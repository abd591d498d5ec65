//! `server.ini` of one DST shard: parsing with the shard defaults and the
//! rendering that the panel writes back.
use vstd::prelude::*;
use crate::text::{chars_of, line, push_text_line};
use crate::numbers::{bool_text, bool_to_chars, decimal, u64_to_chars};
use crate::ini::{
    lemma_ini_pairs_empty,
    ini_safe_value, lemma_bool_ini_safe, lemma_bool_value_roundtrip, lemma_decimal_ini_safe,
    lemma_header_line, lemma_lookup_at, ini_header_ok, ini_key_ok, lemma_ini_pairs_push_line, lemma_kv_line,
    lemma_u64_value_roundtrip, kv_text, push_kv_line, bool_or, ini_get, ini_lookup, ini_pairs, pair_views, parse_ini_values, text_or, u64_or,
    value_bool_or, value_text_or, value_u64_or,
};

verus! {

broadcast use vstd::string::group_string_axioms;

/// Settings of one shard's `server.ini`.
#[derive(Debug, Clone, PartialEq, Eq)]
pub struct ServerIni {
    pub server_port: u64,
    pub is_master: bool,
    pub name: String,
    pub id: u64,
    pub encode_user_path: bool,
    pub authentication_port: u64,
    pub master_server_port: u64,
}

pub struct ServerIniView {
    pub server_port: u64,
    pub is_master: bool,
    pub name: Seq<char>,
    pub id: u64,
    pub encode_user_path: bool,
    pub authentication_port: u64,
    pub master_server_port: u64,
}

impl View for ServerIni {
    type V = ServerIniView;

    open spec fn view(&self) -> ServerIniView {
        ServerIniView {
            server_port: self.server_port,
            is_master: self.is_master,
            name: self.name@,
            id: self.id,
            encode_user_path: self.encode_user_path,
            authentication_port: self.authentication_port,
            master_server_port: self.master_server_port,
        }
    }
}

/// The forest shard's defaults.
pub open spec fn master_default_view() -> ServerIniView {
    ServerIniView {
        server_port: 10999,
        is_master: true,
        name: "Master"@,
        id: 10000,
        encode_user_path: true,
        authentication_port: 8766,
        master_server_port: 27016,
    }
}

/// The cave shard's defaults.
pub open spec fn caves_default_view() -> ServerIniView {
    ServerIniView {
        server_port: 10998,
        is_master: false,
        name: "Caves"@,
        id: 10010,
        encode_user_path: true,
        authentication_port: 8766,
        master_server_port: 27016,
    }
}

/// The settings that `contents` gives a master (`is_master`) or cave shard:
/// ports and id fall back to that shard's defaults, a missing name is empty.
pub open spec fn server_ini_from(contents: Seq<char>, is_master: bool) -> ServerIniView {
    let p = ini_pairs(contents);
    let d = if is_master { master_default_view() } else { caves_default_view() };
    ServerIniView {
        server_port: u64_or(ini_lookup(p, "server_port"@), d.server_port),
        is_master: bool_or(ini_lookup(p, "is_master"@), is_master),
        name: text_or(ini_lookup(p, "name"@), Seq::empty()),
        id: u64_or(ini_lookup(p, "id"@), d.id),
        encode_user_path: bool_or(ini_lookup(p, "encode_user_path"@), true),
        authentication_port: u64_or(ini_lookup(p, "authentication_port"@), d.authentication_port),
        master_server_port: u64_or(ini_lookup(p, "master_server_port"@), d.master_server_port),
    }
}

/// The rendered file.
pub open spec fn server_ini_text(c: ServerIniView) -> Seq<char> {
    line("[NETWORK]"@)
        + line(kv_text("server_port"@, decimal(c.server_port as nat)))
        + line(Seq::empty())
        + line("[SHARD]"@)
        + line(kv_text("is_master"@, bool_text(c.is_master)))
        + line(kv_text("name"@, c.name))
        + line(kv_text("id"@, decimal(c.id as nat)))
        + line(Seq::empty())
        + line("[ACCOUNT]"@)
        + line(kv_text("encode_user_path"@, bool_text(c.encode_user_path)))
        + line(Seq::empty())
        + line("[STEAM]"@)
        + line(kv_text("master_server_port"@, decimal(c.master_server_port as nat)))
        + line(kv_text("authentication_port"@, decimal(c.authentication_port as nat)))
}

/// The pairs that the rendered file holds, in order.
pub open spec fn server_ini_pairs(c: ServerIniView) -> Seq<(Seq<char>, Seq<char>)> {
    Seq::empty()
        .push(("server_port"@, decimal(c.server_port as nat)))
        .push(("is_master"@, bool_text(c.is_master)))
        .push(("name"@, c.name))
        .push(("id"@, decimal(c.id as nat)))
        .push(("encode_user_path"@, bool_text(c.encode_user_path)))
        .push(("master_server_port"@, decimal(c.master_server_port as nat)))
        .push(("authentication_port"@, decimal(c.authentication_port as nat)))
}

proof fn lemma_server_ini_literals()
    ensures
        ini_header_ok("[NETWORK]"@),
        ini_header_ok("[SHARD]"@),
        ini_header_ok("[ACCOUNT]"@),
        ini_header_ok("[STEAM]"@),
        ini_key_ok("server_port"@),
        ini_key_ok("is_master"@),
        ini_key_ok("name"@),
        ini_key_ok("id"@),
        ini_key_ok("encode_user_path"@),
        ini_key_ok("master_server_port"@),
        ini_key_ok("authentication_port"@),
        "server_port"@ != "is_master"@,
        "server_port"@ != "name"@,
        "server_port"@ != "id"@,
        "server_port"@ != "encode_user_path"@,
        "server_port"@ != "master_server_port"@,
        "server_port"@ != "authentication_port"@,
        "is_master"@ != "name"@,
        "is_master"@ != "id"@,
        "is_master"@ != "encode_user_path"@,
        "is_master"@ != "master_server_port"@,
        "is_master"@ != "authentication_port"@,
        "name"@ != "id"@,
        "name"@ != "encode_user_path"@,
        "name"@ != "master_server_port"@,
        "name"@ != "authentication_port"@,
        "id"@ != "encode_user_path"@,
        "id"@ != "master_server_port"@,
        "id"@ != "authentication_port"@,
        "encode_user_path"@ != "master_server_port"@,
        "encode_user_path"@ != "authentication_port"@,
        "master_server_port"@ != "authentication_port"@,
{
    reveal_strlit("[NETWORK]");
    reveal_strlit("[SHARD]");
    reveal_strlit("[ACCOUNT]");
    reveal_strlit("[STEAM]");
    reveal_strlit("server_port");
    reveal_strlit("is_master");
    reveal_strlit("name");
    reveal_strlit("id");
    reveal_strlit("encode_user_path");
    reveal_strlit("master_server_port");
    reveal_strlit("authentication_port");
}

/// The text parses to its pairs.
#[verifier::rlimit(40)]
pub proof fn lemma_server_ini_pairs(c: ServerIniView)
    requires
        ini_safe_value(c.name),
    ensures
        ini_pairs(server_ini_text(c)) == server_ini_pairs(c),
{
    lemma_server_ini_literals();
    let e = Seq::<char>::empty();
    let sp = decimal(c.server_port as nat);
    let im = bool_text(c.is_master);
    let idv = decimal(c.id as nat);
    let eu = bool_text(c.encode_user_path);
    let ms = decimal(c.master_server_port as nat);
    let ap = decimal(c.authentication_port as nat);
    lemma_decimal_ini_safe(c.server_port as nat);
    lemma_decimal_ini_safe(c.id as nat);
    lemma_decimal_ini_safe(c.master_server_port as nat);
    lemma_decimal_ini_safe(c.authentication_port as nat);
    lemma_bool_ini_safe(c.is_master);
    lemma_bool_ini_safe(c.encode_user_path);
    let l0 = "[NETWORK]"@;
    let l1 = kv_text("server_port"@, sp);
    let l3 = "[SHARD]"@;
    let l4 = kv_text("is_master"@, im);
    let l5 = kv_text("name"@, c.name);
    let l6 = kv_text("id"@, idv);
    let l8 = "[ACCOUNT]"@;
    let l9 = kv_text("encode_user_path"@, eu);
    let l11 = "[STEAM]"@;
    let l12 = kv_text("master_server_port"@, ms);
    let l13 = kv_text("authentication_port"@, ap);
    lemma_header_line(l0);
    lemma_kv_line("server_port"@, sp);
    lemma_header_line(e);
    lemma_header_line(l3);
    lemma_kv_line("is_master"@, im);
    lemma_kv_line("name"@, c.name);
    lemma_kv_line("id"@, idv);
    lemma_header_line(l8);
    lemma_kv_line("encode_user_path"@, eu);
    lemma_header_line(l11);
    lemma_kv_line("master_server_port"@, ms);
    lemma_kv_line("authentication_port"@, ap);
    lemma_ini_pairs_empty();
    let p1 = line(l0);
    assert(e + line(l0) =~= p1);
    lemma_ini_pairs_push_line(e, l0);
    let p2 = p1 + line(l1);
    lemma_ini_pairs_push_line(p1, l1);
    let p3 = p2 + line(e);
    lemma_ini_pairs_push_line(p2, e);
    let p4 = p3 + line(l3);
    lemma_ini_pairs_push_line(p3, l3);
    let p5 = p4 + line(l4);
    lemma_ini_pairs_push_line(p4, l4);
    let p6 = p5 + line(l5);
    lemma_ini_pairs_push_line(p5, l5);
    let p7 = p6 + line(l6);
    lemma_ini_pairs_push_line(p6, l6);
    let p8 = p7 + line(e);
    lemma_ini_pairs_push_line(p7, e);
    let p9 = p8 + line(l8);
    lemma_ini_pairs_push_line(p8, l8);
    let p10 = p9 + line(l9);
    lemma_ini_pairs_push_line(p9, l9);
    let p11 = p10 + line(e);
    lemma_ini_pairs_push_line(p10, e);
    let p12 = p11 + line(l11);
    lemma_ini_pairs_push_line(p11, l11);
    let p13 = p12 + line(l12);
    lemma_ini_pairs_push_line(p12, l12);
    lemma_ini_pairs_push_line(p13, l13);
}

/// Writing a shard's settings and reading the text back, as a master or as a
/// cave shard, gives the same settings, for a name that has no surrounding
/// whitespace and no line break.
pub proof fn lemma_server_ini_roundtrip(c: ServerIniView, is_master: bool)
    requires
        ini_safe_value(c.name),
    ensures
        server_ini_from(server_ini_text(c), is_master) == c,
{
    lemma_server_ini_pairs(c);
    lemma_server_ini_literals();
    let sp = decimal(c.server_port as nat);
    let im = bool_text(c.is_master);
    let idv = decimal(c.id as nat);
    let eu = bool_text(c.encode_user_path);
    let ms = decimal(c.master_server_port as nat);
    let ap = decimal(c.authentication_port as nat);
    let q0 = Seq::<(Seq<char>, Seq<char>)>::empty();
    let q1 = q0.push(("server_port"@, sp));
    let q2 = q1.push(("is_master"@, im));
    let q3 = q2.push(("name"@, c.name));
    let q4 = q3.push(("id"@, idv));
    let q5 = q4.push(("encode_user_path"@, eu));
    let q6 = q5.push(("master_server_port"@, ms));
    let q7 = q6.push(("authentication_port"@, ap));
    assert(server_ini_pairs(c) == q7);
    lemma_lookup_at(q7, 0);
    lemma_lookup_at(q7, 1);
    lemma_lookup_at(q7, 2);
    lemma_lookup_at(q7, 3);
    lemma_lookup_at(q7, 4);
    lemma_lookup_at(q7, 5);
    lemma_lookup_at(q7, 6);
    let d = if is_master { master_default_view() } else { caves_default_view() };
    lemma_u64_value_roundtrip(c.server_port, d.server_port);
    lemma_bool_value_roundtrip(c.is_master, is_master);
    lemma_u64_value_roundtrip(c.id, d.id);
    lemma_bool_value_roundtrip(c.encode_user_path, true);
    lemma_u64_value_roundtrip(c.authentication_port, d.authentication_port);
    lemma_u64_value_roundtrip(c.master_server_port, d.master_server_port);
}

impl ServerIni {
    pub fn master_default() -> (c: Self)
        ensures
            c@ == master_default_view(),
    {
        ServerIni {
            server_port: 10999,
            is_master: true,
            name: "Master".to_string(),
            id: 10000,
            encode_user_path: true,
            authentication_port: 8766,
            master_server_port: 27016,
        }
    }

    pub fn caves_default() -> (c: Self)
        ensures
            c@ == caves_default_view(),
    {
        ServerIni {
            server_port: 10998,
            is_master: false,
            name: "Caves".to_string(),
            id: 10010,
            encode_user_path: true,
            authentication_port: 8766,
            master_server_port: 27016,
        }
    }

    /// Parses `server.ini` contents of a master or cave shard.
    pub fn from_contents(contents: &str, is_master: bool) -> (c: Self)
        ensures
            c@ == server_ini_from(contents@, is_master),
    {
        let d = if is_master { Self::master_default() } else { Self::caves_default() };
        let values = parse_ini_values(contents);
        let ghost p = ini_pairs(contents@);
        proof {
            reveal_strlit("");
        }
        let server_port = value_u64_or(ini_get(&values, "server_port"), d.server_port);
        assert(server_port == u64_or(ini_lookup(p, "server_port"@), d.server_port));
        let master = value_bool_or(ini_get(&values, "is_master"), is_master);
        let name = value_text_or(ini_get(&values, "name"), "");
        assert(name@ == text_or(ini_lookup(p, "name"@), Seq::empty()));
        let id = value_u64_or(ini_get(&values, "id"), d.id);
        let encode_user_path = value_bool_or(ini_get(&values, "encode_user_path"), true);
        let authentication_port = value_u64_or(
            ini_get(&values, "authentication_port"),
            d.authentication_port,
        );
        let master_server_port = value_u64_or(
            ini_get(&values, "master_server_port"),
            d.master_server_port,
        );
        ServerIni {
            server_port,
            is_master: master,
            name,
            id,
            encode_user_path,
            authentication_port,
            master_server_port,
        }
    }

    /// Renders the file.
    pub fn to_ini(&self) -> (s: String)
        ensures
            s@ == server_ini_text(self@),
    {
        let mut s = String::new();
        push_text_line(&mut s, "[NETWORK]");
        assert(s@ =~= line("[NETWORK]"@));
        push_kv_line(&mut s, "server_port", &u64_to_chars(self.server_port));
        push_text_line(&mut s, "");
        push_text_line(&mut s, "[SHARD]");
        push_kv_line(&mut s, "is_master", &bool_to_chars(self.is_master));
        push_kv_line(&mut s, "name", &chars_of(self.name.as_str()));
        push_kv_line(&mut s, "id", &u64_to_chars(self.id));
        push_text_line(&mut s, "");
        push_text_line(&mut s, "[ACCOUNT]");
        push_kv_line(&mut s, "encode_user_path", &bool_to_chars(self.encode_user_path));
        push_text_line(&mut s, "");
        push_text_line(&mut s, "[STEAM]");
        push_kv_line(&mut s, "master_server_port", &u64_to_chars(self.master_server_port));
        push_kv_line(&mut s, "authentication_port", &u64_to_chars(self.authentication_port));
        proof {
            reveal_strlit("");
        }
        s
    }
}

} // verus!
