//! The exact textual form a configuration record is written back in: one
//! `key = value` line per field in schema order, double-quoted single-line
//! strings, inline lists, a disabled timeout omitted.
//!
//! The defaults document this produces is held byte for byte against a
//! committed reference copy, so the text is pinned down to the character.

use vstd::prelude::*;
use vstd::string::*;

use crate::ip::{append_ip, spec_ip_text};
use crate::schema::{Address, AddressView, Config, ConfigView, views_of};
use crate::text::{append_decimal, append_escaped, spec_decimal, spec_escaped};

verus! {

/// A double-quoted, escaped string value.
pub open spec fn spec_quoted(s: Seq<char>) -> Seq<char> {
    seq!['"'] + spec_escaped(s) + seq!['"']
}

/// Every element of a list after the first, each preceded by a comma and
/// a space.
pub open spec fn spec_list_tail(xs: Seq<Seq<char>>) -> Seq<char>
    decreases xs.len(),
{
    if xs.len() == 0 {
        Seq::empty()
    } else {
        seq![',', ' '] + spec_quoted(xs[0]) + spec_list_tail(xs.drop_first())
    }
}

/// The inside of an inline list of strings.
pub open spec fn spec_list_body(xs: Seq<Seq<char>>) -> Seq<char> {
    if xs.len() == 0 {
        Seq::empty()
    } else {
        spec_quoted(xs[0]) + spec_list_tail(xs.drop_first())
    }
}

/// An address value: the network shape as a two-element inline list, the
/// local-socket shape as a bare string.
pub open spec fn spec_address_toml(a: AddressView) -> Seq<char> {
    match a {
        AddressView::Tcp(ip, port) => seq!['[', '"'] + spec_ip_text(ip) + seq!['"', ',', ' ']
            + spec_decimal(port as nat) + seq![']'],
        AddressView::Unix(path) => spec_quoted(path),
    }
}

/// The whole document: one line per field, in schema order; a disabled
/// timeout leaves its line out.
pub open spec fn spec_config_toml(c: ConfigView) -> Seq<char> {
    (match c.instance_timeout {
        None => Seq::<char>::empty(),
        Some(t) => "instance_timeout = "@ + spec_decimal(t as nat) + seq!['\n'],
    }) + "gc_interval = "@ + spec_decimal(c.gc_interval as nat) + seq!['\n'] + "listen = "@
        + spec_address_toml(c.listen) + seq!['\n'] + "connect = "@ + spec_address_toml(c.connect)
        + seq!['\n'] + "log_filters = "@ + spec_quoted(c.log_filters) + seq!['\n'] + "log_mode = "@
        + spec_quoted(c.log_mode) + seq!['\n'] + "pass_environment = "@ + seq!['[']
        + spec_list_body(c.pass_environment) + seq![']', '\n']
}

proof fn lemma_list_tail_push(t: Seq<Seq<char>>, x: Seq<char>)
    ensures
        spec_list_tail(t.push(x)) == spec_list_tail(t) + seq![',', ' '] + spec_quoted(x)
            + spec_list_tail(Seq::<Seq<char>>::empty()),
    decreases t.len(),
{
    assert(spec_list_tail(Seq::<Seq<char>>::empty()) =~= Seq::<char>::empty());
    if t.len() == 0 {
        assert(t.push(x)[0] == x);
        assert(t.push(x).drop_first() =~= Seq::<Seq<char>>::empty());
        assert(spec_list_tail(t.push(x)) =~= spec_list_tail(t) + seq![',', ' '] + spec_quoted(x)
            + spec_list_tail(Seq::<Seq<char>>::empty()));
    } else {
        assert(t.push(x)[0] == t[0]);
        assert(t.push(x).drop_first() =~= t.drop_first().push(x));
        lemma_list_tail_push(t.drop_first(), x);
        assert(spec_list_tail(t.push(x)) =~= spec_list_tail(t) + seq![',', ' '] + spec_quoted(x)
            + spec_list_tail(Seq::<Seq<char>>::empty()));
    }
}

proof fn lemma_list_body_push(t: Seq<Seq<char>>, x: Seq<char>)
    ensures
        spec_list_body(t.push(x)) == if t.len() == 0 {
            spec_quoted(x)
        } else {
            spec_list_body(t) + seq![',', ' '] + spec_quoted(x)
        },
    decreases t.len(),
{
    if t.len() == 0 {
        assert(t.push(x)[0] == x);
        assert(t.push(x).drop_first() =~= Seq::<Seq<char>>::empty());
        assert(spec_list_body(t.push(x)) =~= spec_quoted(x));
    } else {
        assert(t.push(x)[0] == t[0]);
        assert(t.push(x).drop_first() =~= t.drop_first().push(x));
        lemma_list_tail_push(t.drop_first(), x);
        assert(spec_list_body(t.push(x)) =~= spec_list_body(t) + seq![',', ' '] + spec_quoted(x));
    }
}

fn append_quoted(out: &mut String, s: &str)
    ensures
        final(out)@ == old(out)@ + spec_quoted(s@),
{
    proof {
        reveal_strlit("\"");
    }
    out.append("\"");
    append_escaped(out, s);
    out.append("\"");
    proof {
        assert(final(out)@ =~= old(out)@ + spec_quoted(s@));
    }
}

fn append_address(out: &mut String, a: &Address)
    ensures
        final(out)@ == old(out)@ + spec_address_toml(a@),
{
    match a {
        Address::Tcp(ip, port) => {
            proof {
                reveal_strlit("[\"");
                reveal_strlit("\", ");
                reveal_strlit("]");
            }
            out.append("[\"");
            append_ip(out, ip);
            out.append("\", ");
            append_decimal(out, *port as u64);
            out.append("]");
            proof {
                assert(final(out)@ =~= old(out)@ + spec_address_toml(a@));
            }
        },
        Address::Unix(path) => {
            append_quoted(out, path.as_str());
        },
    }
}

fn append_string_list(out: &mut String, xs: &Vec<String>)
    ensures
        final(out)@ == old(out)@ + seq!['['] + spec_list_body(views_of(xs@)) + seq![']'],
{
    proof {
        reveal_strlit("[");
        reveal_strlit(", ");
        reveal_strlit("]");
    }
    out.append("[");
    let ghost pre = out@;
    let mut i: usize = 0;
    proof {
        assert(views_of(xs@).take(0) =~= Seq::<Seq<char>>::empty());
    }
    while i < xs.len()
        invariant
            i <= xs@.len(),
            out@ == pre + spec_list_body(views_of(xs@).take(i as int)),
        decreases xs@.len() - i,
    {
        proof {
            reveal_strlit(", ");
        }
        if i > 0 {
            out.append(", ");
        }
        append_quoted(out, xs[i].as_str());
        proof {
            let views = views_of(xs@);
            assert(views.take(i + 1) =~= views.take(i as int).push(views[i as int]));
            assert(views[i as int] == xs@[i as int]@);
            lemma_list_body_push(views.take(i as int), views[i as int]);
            assert(out@ =~= pre + spec_list_body(views.take(i + 1)));
        }
        i += 1;
    }
    out.append("]");
    proof {
        assert(views_of(xs@).take(xs@.len() as int) =~= views_of(xs@));
        assert(final(out)@ =~= old(out)@ + seq!['['] + spec_list_body(views_of(xs@)) + seq![']']);
    }
}

impl Config {
    /// Writes the record in the exact committed form.
    pub fn to_toml_string(&self) -> (r: String)
        ensures
            r@ == spec_config_toml(self@),
    {
        proof {
            reveal_strlit("\n");
        }
        let mut out = String::new();
        match &self.instance_timeout {
            Some(t) => {
                out.append("instance_timeout = ");
                append_decimal(&mut out, *t as u64);
                out.append("\n");
            },
            None => {},
        }
        out.append("gc_interval = ");
        append_decimal(&mut out, self.gc_interval as u64);
        out.append("\n");
        out.append("listen = ");
        append_address(&mut out, &self.listen);
        out.append("\n");
        out.append("connect = ");
        append_address(&mut out, &self.connect);
        out.append("\n");
        out.append("log_filters = ");
        append_quoted(&mut out, self.log_filters.as_str());
        out.append("\n");
        out.append("log_mode = ");
        append_quoted(&mut out, self.log_mode.as_str());
        out.append("\n");
        out.append("pass_environment = ");
        append_string_list(&mut out, &self.pass_environment);
        out.append("\n");
        proof {
            assert(out@ =~= spec_config_toml(self@));
        }
        out
    }
}

} // verus!
