//! The repositories that the assistant knows.
use vstd::prelude::*;
use crate::json;
use crate::json::Json;
use crate::text;

verus! {

/// A registered repository.
pub struct RepoRow {
    pub id: String,
    pub name: String,
    pub remote_url: Option<String>,
    pub forge_provider: Option<String>,
    pub forge_login: Option<String>,
}

/// What is known of a repository.
#[verifier::ext_equal]
pub struct RepoView {
    pub id: Seq<char>,
    pub name: Seq<char>,
    pub remote_url: Option<Seq<char>>,
    pub forge_provider: Option<Seq<char>>,
    pub forge_login: Option<Seq<char>>,
}

impl View for RepoRow {
    type V = RepoView;

    open spec fn view(&self) -> RepoView {
        RepoView {
            id: self.id@,
            name: self.name@,
            remote_url: text::opt_text(self.remote_url),
            forge_provider: text::opt_text(self.forge_provider),
            forge_login: text::opt_text(self.forge_login),
        }
    }
}

/// What is known of the repositories of a list.
pub open spec fn repo_views(v: Seq<RepoRow>) -> Seq<RepoView> {
    Seq::new(v.len(), |i: int| v[i]@)
}

/// A repository as JSON.
pub open spec fn repo_tree(r: RepoView) -> json::Tree {
    json::Tree::Object(
        seq![
            ("forgeLogin"@, json::opt_tree(r.forge_login)),
            ("forgeProvider"@, json::opt_tree(r.forge_provider)),
            ("id"@, json::Tree::Text(r.id)),
            ("name"@, json::Tree::Text(r.name)),
            ("remoteUrl"@, json::opt_tree(r.remote_url)),
        ],
    )
}

/// Repositories as JSON.
pub open spec fn repos_tree(repos: Seq<RepoView>) -> json::Tree {
    json::Tree::Array(Seq::new(repos.len(), |i: int| repo_tree(repos[i])))
}

/// A repository as JSON.
pub fn repo_json(r: &RepoRow) -> (j: Json)
    ensures
        j@ == repo_tree(r@),
{
    let mut m: Vec<(String, Json)> = Vec::new();
    m.push(("forgeLogin".to_string(), Json::text_or_null(&r.forge_login)));
    m.push(("forgeProvider".to_string(), Json::text_or_null(&r.forge_provider)));
    m.push(("id".to_string(), Json::text(r.id.as_str())));
    m.push(("name".to_string(), Json::text(r.name.as_str())));
    m.push(("remoteUrl".to_string(), Json::text_or_null(&r.remote_url)));
    let j = Json::object(m);
    assert(j@->Object_0 =~= repo_tree(r@)->Object_0);
    j
}

/// The repositories as a triage tick is told of them.
pub fn list_repos_payload(repos: &Vec<RepoRow>) -> (j: Json)
    ensures
        j@ == repos_tree(repo_views(repos@)),
{
    let mut out: Vec<Json> = Vec::new();
    let mut i: usize = 0;
    while i < repos.len()
        invariant
            i <= repos@.len(),
            out@.len() == i,
            forall|k: int| 0 <= k < i ==> (#[trigger] out@[k])@ == repo_tree(repos@[k]@),
        decreases repos@.len() - i,
    {
        out.push(repo_json(&repos[i]));
        i += 1;
    }
    let j = Json::array(out);
    assert(j@->Array_0 =~= repos_tree(repo_views(repos@))->Array_0);
    j
}

/// A repository can be read back by name from what a tick is told of it, and every repository
/// is told of, in their order.
pub proof fn law_repositories_are_told_by_name(repos: Seq<RepoView>, i: int)
    requires
        0 <= i < repos.len(),
    ensures
        ({
            let r = repos[i];
            let t = repos_tree(repos)->Array_0[i];
            &&& repos_tree(repos) is Array && repos_tree(repos)->Array_0.len() == repos.len()
            &&& t.text_at("id"@) == Some(r.id)
            &&& t.text_at("name"@) == Some(r.name)
            &&& t.text_at("remoteUrl"@) == r.remote_url
            &&& t.text_at("forgeProvider"@) == r.forge_provider
            &&& t.text_at("forgeLogin"@) == r.forge_login
        }),
{
    reveal_strlit("forgeLogin");
    reveal_strlit("forgeProvider");
    reveal_strlit("id");
    reveal_strlit("name");
    reveal_strlit("remoteUrl");
    let m = repo_tree(repos[i])->Object_0;
    assert("forgeLogin"@[5] == 'L' && "forgeProvider"@[5] == 'P');
    assert("forgeLogin"@[0] == 'f' && "forgeProvider"@[0] == 'f' && "id"@[0] == 'i' && "name"@[0]
        == 'n' && "remoteUrl"@[0] == 'r');
    assert forall|a: int, b: int| 0 <= b < a < 5 implies (#[trigger] m[b]).0 != (
    #[trigger] m[a]).0 by {}
    json::lemma_member_at(m, 0);
    json::lemma_member_at(m, 1);
    json::lemma_member_at(m, 2);
    json::lemma_member_at(m, 3);
    json::lemma_member_at(m, 4);
}

} // verus!
