//! Docker containers from the output of `docker ps -a --format json`.
use vstd::prelude::*;
use crate::git::{CommandOutput, CommandOutputView, out_view};
use crate::json::{json_str_member, json_str_member_of};
use crate::text::{
    before_char, before_char_chars, from_chars, lines, split_lines, string_of, strip_start_char,
    strip_start_char_chars, to_chars, trim, trim_chars,
};

verus! {

/// One container as `docker ps` lists it.
pub struct ContainerInfo {
    pub name: String,
    pub image: String,
    /// "running", "exited", "restarting", "paused", ...
    pub state: String,
    /// human-readable, e.g. "Up 2 hours"
    pub status: String,
}

pub struct ContainerInfoView {
    pub name: Seq<char>,
    pub image: Seq<char>,
    pub state: Seq<char>,
    pub status: Seq<char>,
}

impl View for ContainerInfo {
    type V = ContainerInfoView;

    open spec fn view(&self) -> ContainerInfoView {
        ContainerInfoView { name: self.name@, image: self.image@, state: self.state@, status: self.status@ }
    }
}

/// Whether Docker answered, and its containers.
pub struct DockerStatus {
    pub available: bool,
    pub containers: Vec<ContainerInfo>,
}

/// A string member as read from a JSON line, or `default` when the line
/// has no such string member.
pub open spec fn member_or(m: Option<Option<Seq<char>>>, default: Seq<char>) -> Seq<char> {
    match m {
        Some(Some(s)) => s,
        _ => default,
    }
}

/// The container that the members `Names`, `Image`, `State` and `Status` of a
/// JSON line describe (each as read: `None` when the line is no JSON,
/// `Some(None)` when the member is no string). The name is the first of the
/// comma-separated names without leading slashes; there is no container when
/// the line is no JSON or that name is empty. Image and status default to
/// empty, state to `unknown`.
pub open spec fn container_from(
    names: Option<Option<Seq<char>>>,
    image: Option<Option<Seq<char>>>,
    state: Option<Option<Seq<char>>>,
    status: Option<Option<Seq<char>>>,
) -> Option<ContainerInfoView> {
    match names {
        None => None,
        Some(n) => {
            let all = match n {
                Some(a) => a,
                None => Seq::empty(),
            };
            let name = strip_start_char(before_char(all, ','), '/');
            if name.len() == 0 {
                None
            } else {
                Some(ContainerInfoView {
                    name: name,
                    image: member_or(image, Seq::empty()),
                    state: member_or(state, "unknown"@),
                    status: member_or(status, Seq::empty()),
                })
            }
        },
    }
}

proof fn lemma_before_char_free(s: Seq<char>, c: char)
    ensures
        forall|i: int| 0 <= i < before_char(s, c).len() ==> #[trigger] before_char(s, c)[i] != c,
    decreases s.len(),
{
    if s.len() > 0 && s[0] != c {
        lemma_before_char_free(s.skip(1), c);
        let t = before_char(s.skip(1), c);
        assert forall|i: int| 0 <= i < before_char(s, c).len() implies #[trigger] before_char(s, c)[i] != c by {
            if i > 0 {
                assert(before_char(s, c)[i] == t[i - 1]);
            }
        }
    }
}

proof fn lemma_strip_start_free(s: Seq<char>, c: char)
    requires
        forall|i: int| 0 <= i < s.len() ==> #[trigger] s[i] != ',',
    ensures
        strip_start_char(s, c).len() > 0 ==> strip_start_char(s, c)[0] != c,
        forall|i: int| 0 <= i < strip_start_char(s, c).len() ==> #[trigger] strip_start_char(s, c)[i] != ',',
    decreases s.len(),
{
    if s.len() > 0 && s[0] == c {
        assert forall|i: int| 0 <= i < s.skip(1).len() implies #[trigger] s.skip(1)[i] != ',' by {
            assert(s.skip(1)[i] == s[i + 1]);
        }
        lemma_strip_start_free(s.skip(1), c);
    }
}

/// Law: a container is named by the first of its comma-separated names
/// without leading slashes (never empty, never starting with `/`, never
/// holding a comma); its state is the line's `State`, or `unknown` when the
/// line has no such string; its image and status are the line's, or empty.
pub proof fn law_container_fields(
    names: Option<Option<Seq<char>>>,
    image: Option<Option<Seq<char>>>,
    state: Option<Option<Seq<char>>>,
    status: Option<Option<Seq<char>>>,
)
    ensures
        names is None ==> container_from(names, image, state, status) is None,
        container_from(names, image, state, status) matches Some(c) ==> {
            &&& c.name.len() > 0
            &&& c.name[0] != '/'
            &&& forall|i: int| 0 <= i < c.name.len() ==> #[trigger] c.name[i] != ','
            &&& c.state == match state {
                Some(Some(x)) => x,
                _ => "unknown"@,
            }
            &&& c.image == match image {
                Some(Some(x)) => x,
                _ => Seq::<char>::empty(),
            }
            &&& c.status == match status {
                Some(Some(x)) => x,
                _ => Seq::<char>::empty(),
            }
        },
{
    if let Some(n) = names {
        let all = match n {
            Some(a) => a,
            None => Seq::<char>::empty(),
        };
        lemma_before_char_free(all, ',');
        lemma_strip_start_free(before_char(all, ','), '/');
    }
}

/// The container a line of `docker ps --format json` describes, if any: a
/// nonblank line, trimmed, read as JSON.
pub open spec fn docker_line(line: Seq<char>) -> Option<ContainerInfoView> {
    let t = trim(line);
    if t.len() == 0 {
        None
    } else {
        container_from(
            json_str_member(t, "Names"@),
            json_str_member(t, "Image"@),
            json_str_member(t, "State"@),
            json_str_member(t, "Status"@),
        )
    }
}

/// The containers of the lines, in order.
pub open spec fn containers_of(ls: Seq<Seq<char>>) -> Seq<ContainerInfoView>
    decreases ls.len(),
{
    if ls.len() == 0 {
        Seq::empty()
    } else {
        match docker_line(ls.last()) {
            Some(c) => containers_of(ls.drop_last()).push(c),
            None => containers_of(ls.drop_last()),
        }
    }
}

/// A member as read, by its view.
pub open spec fn member_view(m: Option<Option<String>>) -> Option<Option<Seq<char>>> {
    match m {
        Some(Some(s)) => Some(Some(s@)),
        Some(None) => Some(None),
        None => None,
    }
}

fn member_or_exec(m: Option<Option<String>>, default: &str) -> (r: String)
    ensures
        r@ == member_or(member_view(m), default@),
{
    match m {
        Some(Some(s)) => s,
        _ => string_of(default),
    }
}

/// The container described by the members `Names`, `Image`, `State` and
/// `Status` of a JSON line, as read from it.
pub fn container_from_members(
    names: Option<Option<String>>,
    image: Option<Option<String>>,
    state: Option<Option<String>>,
    status: Option<Option<String>>,
) -> (r: Option<ContainerInfo>)
    ensures
        match container_from(member_view(names), member_view(image), member_view(state), member_view(status)) {
            Some(c) => r matches Some(v) && v@ == c,
            None => r is None,
        },
{
    let all = match names {
        None => {
            return None;
        },
        Some(Some(n)) => to_chars(n.as_str()),
        Some(None) => {
            let v: Vec<char> = Vec::new();
            assert(v@ =~= Seq::<char>::empty());
            v
        },
    };
    let first = before_char_chars(&all, ',');
    let name = strip_start_char_chars(&first, '/');
    if name.len() == 0 {
        return None;
    }
    proof {
        reveal_strlit("");
        assert(""@ =~= Seq::<char>::empty());
    }
    Some(ContainerInfo {
        name: from_chars(name.as_slice()),
        image: member_or_exec(image, ""),
        state: member_or_exec(state, "unknown"),
        status: member_or_exec(status, ""),
    })
}

fn docker_line_exec(line: &Vec<char>) -> (r: Option<ContainerInfo>)
    ensures
        match docker_line(line@) {
            Some(c) => r matches Some(v) && v@ == c,
            None => r is None,
        },
{
    let t = trim_chars(line);
    if t.len() == 0 {
        return None;
    }
    let text = from_chars(t.as_slice());
    container_from_members(
        json_str_member_of(text.as_str(), "Names"),
        json_str_member_of(text.as_str(), "Image"),
        json_str_member_of(text.as_str(), "State"),
        json_str_member_of(text.as_str(), "Status"),
    )
}

/// The containers a `docker ps -a --format json` output lists, in order.
pub fn parse_docker_ps(stdout: &str) -> (r: Vec<ContainerInfo>)
    ensures
        r@.map_values(|c: ContainerInfo| c@) == containers_of(lines(stdout@)),
{
    let chars = to_chars(stdout);
    let ls = split_lines(&chars);
    let ghost lv = ls.deep_view();
    let mut out: Vec<ContainerInfo> = Vec::new();
    let mut i: usize = 0;
    while i < ls.len()
        invariant
            i <= ls.len(),
            lv == ls.deep_view(),
            lv == lines(stdout@),
            out@.map_values(|c: ContainerInfo| c@) == containers_of(lv.take(i as int)),
        decreases ls.len() - i,
    {
        assert(lv.take(i + 1).drop_last() =~= lv.take(i as int));
        assert(ls[i as int]@ =~= lv[i as int]);
        let ghost before = out@.map_values(|c: ContainerInfo| c@);
        match docker_line_exec(&ls[i]) {
            Some(c) => {
                out.push(c);
                assert(out@.map_values(|c: ContainerInfo| c@) =~= before.push(docker_line(lv[i as int]).unwrap()));
            },
            None => {},
        }
        i = i + 1;
    }
    assert(lv.take(ls.len() as int) =~= lv);
    out
}

/// The Docker report from the `docker ps -a --format json` run: unavailable,
/// with no containers, when the command could not run or failed; otherwise
/// available with the containers it lists.
pub fn get_docker_status(output: Option<&CommandOutput>) -> (r: DockerStatus)
    ensures
        match output {
            Some(o) if o.success => r.available
                && r.containers@.map_values(|c: ContainerInfo| c@) == containers_of(lines(o.stdout@)),
            _ => !r.available && r.containers@.len() == 0,
        },
{
    match output {
        Some(o) => if o.success {
            DockerStatus { available: true, containers: parse_docker_ps(o.stdout.as_str()) }
        } else {
            DockerStatus { available: false, containers: Vec::new() }
        },
        None => DockerStatus { available: false, containers: Vec::new() },
    }
}

} // verus!
