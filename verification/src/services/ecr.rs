//! Container registry.
use vstd::prelude::*;

use crate::bytes::{self, base64_bytes, lossy};
use crate::error::{told, AwlError, Failure};
use crate::json::{self, Fields, Json, JsonTree};
use crate::output::{self, Output, Shown};
use crate::services::common;
use crate::text;

verus! {

/// The repository and the tag of an image: what stands before and after the last
/// colon.
pub open spec fn image_parts(value: Seq<char>) -> Result<(Seq<char>, Seq<char>), Failure> {
    match text::split_last(value, ':') {
        Some(parts) => Ok(parts),
        None => Err(Failure::Usage("expected repo:tag, got "@ + text::quoted(value))),
    }
}

/// The repository and the tag of an image.
pub fn split_image_ref(value: &str) -> (r: Result<(String, String), AwlError>)
    ensures
        match r {
            Ok(parts) => image_parts(value@) == Ok::<(Seq<char>, Seq<char>), Failure>(
                (parts.0@, parts.1@),
            ),
            Err(error) => image_parts(value@) == Err::<(Seq<char>, Seq<char>), Failure>(error@),
        },
{
    match text::rsplit_once(value, ':') {
        Some((repo, tag)) => Ok((repo.to_owned(), tag.to_owned())),
        None => Err(
            AwlError::usage(
                "expected repo:tag, got ".to_owned().concat(text::quote(value).as_str()).as_str(),
            ),
        ),
    }
}

/// A repository and a tag with a colon between them are read as themselves, where
/// the tag holds no colon.
pub proof fn law_image_round_trip(repo: Seq<char>, tag: Seq<char>)
    requires
        !tag.contains(':'),
    ensures
        image_parts(repo + seq![':'] + tag) == Ok::<(Seq<char>, Seq<char>), Failure>((repo, tag)),
{
    text::lemma_split_last(repo, ':', tag);
}

/// A repository as the service lists it.
#[derive(Debug)]
pub struct RepositoryInfo {
    pub name: Option<String>,
    pub uri: Option<String>,
    pub registry_id: Option<String>,
}

/// The record of a repository.
pub open spec fn repository_tree(repo: RepositoryInfo) -> JsonTree {
    JsonTree::Object(
        map![
            "repository_name"@ => json::optional_text(repo.name.deep_view()),
            "repository_uri"@ => json::optional_text(repo.uri.deep_view()),
            "registry_id"@ => json::optional_text(repo.registry_id.deep_view()),
        ],
    )
}

/// The records of the repositories.
pub open spec fn repositories_shown(repos: Seq<RepositoryInfo>) -> Shown {
    Shown::Many(repos.map_values(|repo: RepositoryInfo| repository_tree(repo)))
}

/// What is shown of repositories.
pub fn repository_rows(repos: &Vec<RepositoryInfo>) -> (r: Output)
    ensures
        r@ == repositories_shown(repos@),
{
    let mut rows: Vec<Json> = Vec::new();
    let mut i: usize = 0;
    while i < repos.len()
        invariant
            i <= repos.len(),
            rows@.len() == i,
            forall|j: int|
                0 <= j < i ==> (#[trigger] rows@[j]).tree() == repository_tree(repos@[j]),
        decreases repos.len() - i,
    {
        let mut row = Fields::new();
        row.insert("repository_name", Json::optional_string(&repos[i].name));
        row.insert("repository_uri", Json::optional_string(&repos[i].uri));
        row.insert("registry_id", Json::optional_string(&repos[i].registry_id));
        rows.push(Json::Object(row));
        i += 1;
    }
    assert(json::trees(rows@) =~= repos@.map_values(
        |repo: RepositoryInfo| repository_tree(repo),
    ));
    Output::Many(rows)
}

/// The repository whose tags are listed.
pub fn tags_plan(args: &[String]) -> (r: Result<String, AwlError>)
    ensures
        told(r) == common::required_at(common::positionals(args.deep_view()), 0, "repo"@),
{
    let words = common::positional(args);
    common::required(words.as_slice(), 0, "repo")
}

/// An image as the service describes it.
#[derive(Debug)]
pub struct ImageInfo {
    pub tags: Vec<String>,
    pub digest: Option<String>,
    pub pushed_at: Option<String>,
    pub size: Option<i64>,
}

/// The record of a tag of an image.
pub open spec fn tag_tree(image: ImageInfo, tag: Seq<char>) -> JsonTree {
    JsonTree::Object(
        map![
            "tag"@ => JsonTree::Text(tag),
            "digest"@ => json::optional_text(image.digest.deep_view()),
            "pushed_at"@ => json::optional_text(image.pushed_at.deep_view()),
            "size"@ => json::optional_i64(image.size),
        ],
    )
}

/// The records of all tags of images, image by image.
pub open spec fn tag_trees(images: Seq<ImageInfo>) -> Seq<JsonTree>
    decreases images.len(),
{
    if images.len() == 0 {
        Seq::empty()
    } else {
        let image = images.last();
        tag_trees(images.drop_last()) + image.tags.deep_view().map_values(
            |tag: Seq<char>| tag_tree(image, tag),
        )
    }
}

/// What is shown of the tags of images.
pub fn tag_rows(images: &Vec<ImageInfo>) -> (r: Output)
    ensures
        r@ == Shown::Many(tag_trees(images@)),
{
    let mut rows: Vec<Json> = Vec::new();
    let mut i: usize = 0;
    assert(images@.take(0) =~= Seq::empty());
    assert(json::trees(rows@) =~= Seq::empty());
    while i < images.len()
        invariant
            i <= images.len(),
            json::trees(rows@) == tag_trees(images@.take(i as int)),
        decreases images.len() - i,
    {
        let image = &images[i];
        let ghost before = json::trees(rows@);
        let ghost every = image.tags.deep_view().map_values(|tag: Seq<char>| tag_tree(*image, tag));
        let mut k: usize = 0;
        assert(before + every.take(0) =~= before);
        while k < image.tags.len()
            invariant
                every == image.tags.deep_view().map_values(
                    |tag: Seq<char>| tag_tree(*image, tag),
                ),
                k <= image.tags.len(),
                json::trees(rows@) == before + every.take(k as int),
            decreases image.tags.len() - k,
        {
            let ghost so_far = rows@;
            let mut row = Fields::new();
            row.insert("tag", Json::text(image.tags[k].as_str()));
            row.insert("digest", Json::optional_string(&image.digest));
            row.insert("pushed_at", Json::optional_string(&image.pushed_at));
            row.insert("size", Json::optional_signed(image.size));
            rows.push(Json::Object(row));
            proof {
                assert(json::trees(rows@) =~= json::trees(so_far).push(every[k as int]));
                assert(every.take(k + 1) =~= every.take(k as int).push(every[k as int]));
                assert(json::trees(rows@) =~= before + every.take(k + 1));
            }
            k += 1;
        }
        assert(every.take(k as int) =~= every);
        assert(images@.take(i + 1).drop_last() =~= images@.take(i as int));
        i += 1;
    }
    assert(images@.take(i as int) =~= images@);
    Output::Many(rows)
}

/// What the service gives for a login.
#[derive(Debug)]
pub struct AuthorizationData {
    pub token: Option<String>,
    pub endpoint: Option<String>,
}

/// A login of the container client.
#[derive(Debug)]
pub struct Login {
    pub endpoint: String,
    pub password: String,
    pub command: String,
}

/// The meaning of a `Login`.
pub struct LoginView {
    pub endpoint: Seq<char>,
    pub password: Seq<char>,
    pub command: Seq<char>,
}

impl View for Login {
    type V = LoginView;

    open spec fn view(&self) -> LoginView {
        LoginView {
            endpoint: self.endpoint@,
            password: self.password@,
            command: self.command@,
        }
    }
}

/// The password in a decoded token: what follows its first colon, or else all of
/// it.
pub open spec fn password_in(decoded: Seq<char>) -> Seq<char> {
    match text::split_first(decoded, ":"@) {
        Some((_, password)) => password,
        None => decoded,
    }
}

/// The login that a decoded token gives at an endpoint.
pub open spec fn login_with(decoded: Seq<char>, endpoint: Option<Seq<char>>) -> LoginView {
    let place = match endpoint {
        Some(endpoint) => endpoint,
        None => Seq::empty(),
    };
    LoginView {
        endpoint: place,
        password: password_in(decoded),
        command: "docker login --username AWS --password-stdin "@ + place,
    }
}

/// The login that the first authorization data give.
pub open spec fn login_of(data: Seq<AuthorizationData>) -> Result<LoginView, Failure> {
    if data.len() == 0 {
        Err(Failure::Authentication("ECR returned no authorization data"@))
    } else {
        match data[0].token {
            None => Err(Failure::Authentication("ECR returned no authorization token"@)),
            Some(token) => match base64_bytes(token@) {
                Err(message) => Err(
                    Failure::Authentication("invalid ECR authorization token: "@ + message),
                ),
                Ok(bytes) => Ok(login_with(lossy(bytes), data[0].endpoint.deep_view())),
            },
        }
    }
}

/// The login that the first authorization data give.
pub fn login(data: &Vec<AuthorizationData>) -> (r: Result<Login, AwlError>)
    ensures
        told(r) == login_of(data@),
{
    if data.len() == 0 {
        return Err(
            AwlError::Authentication { message: "ECR returned no authorization data".to_owned() },
        );
    }
    let token = match &data[0].token {
        Some(token) => token,
        None => {
            return Err(
                AwlError::Authentication {
                    message: "ECR returned no authorization token".to_owned(),
                },
            );
        },
    };
    let decoded = match bytes::base64_decode(token.as_str()) {
        Ok(decoded) => decoded,
        Err(message) => {
            return Err(
                AwlError::Authentication {
                    message: "invalid ECR authorization token: ".to_owned().concat(
                        message.as_str(),
                    ),
                },
            );
        },
    };
    Ok(login_from(bytes::lossy_text(decoded.as_slice()).as_str(), &data[0].endpoint))
}

/// The login that a decoded token gives at an endpoint.
pub fn login_from(decoded: &str, endpoint: &Option<String>) -> (r: Login)
    ensures
        r@ == login_with(decoded@, endpoint.deep_view()),
{
    let password = match text::split_once(decoded, ":") {
        Some((_, password)) => password.to_owned(),
        None => decoded.to_owned(),
    };
    let endpoint = match endpoint {
        Some(endpoint) => endpoint.clone(),
        None => {
            let none = String::new();
            assert(none@ =~= Seq::<char>::empty());
            none
        },
    };
    let command = "docker login --username AWS --password-stdin ".to_owned().concat(
        endpoint.as_str(),
    );
    Login { endpoint, password, command }
}

/// Whether the login is to be carried out, and not only shown.
pub fn login_is_run(args: &[String]) -> (r: bool)
    ensures
        r == args.deep_view().contains("--exec"@),
{
    common::has_flag(args, "--exec")
}

/// The words with which the container tool logs in.
pub open spec fn login_words(endpoint: Seq<char>) -> Seq<Seq<char>> {
    seq!["login"@, "--username"@, "AWS"@, "--password-stdin"@, endpoint]
}

/// The arguments with which the container client is run.
pub fn login_args(login: &Login) -> (r: Vec<String>)
    ensures
        r.deep_view() == login_words(login@.endpoint),
{
    let mut words: Vec<String> = Vec::new();
    words.push("login".to_owned());
    words.push("--username".to_owned());
    words.push("AWS".to_owned());
    words.push("--password-stdin".to_owned());
    words.push(login.endpoint.clone());
    assert(words.deep_view() =~= seq![
        "login"@,
        "--username"@,
        "AWS"@,
        "--password-stdin"@,
        login@.endpoint,
    ]);
    words
}

/// What is shown of a login.
pub open spec fn login_shown(
    login: LoginView,
    failed_status: Option<Seq<char>>,
) -> Result<Shown, Failure> {
    match failed_status {
        Some(status) => Err(Failure::Aws("docker login failed with status "@ + status)),
        None => Ok(
            Shown::One(
                JsonTree::Object(
                    map![
                        "command"@ => JsonTree::Text(login.command),
                        "proxy_endpoint"@ => JsonTree::Text(login.endpoint),
                    ],
                ),
            ),
        ),
    }
}

/// What is shown of a login; the password is not. Where the container client was
/// run and ended with a status that is no success, that is said instead.
pub fn login_row(login: &Login, failed_status: Option<&str>) -> (r: Result<Output, AwlError>)
    ensures
        told(r) == login_shown(login@, failed_status.deep_view()),
{
    if let Some(status) = failed_status {
        return Err(
            AwlError::Aws {
                message: "docker login failed with status ".to_owned().concat(status),
            },
        );
    }
    let mut row = Fields::new();
    row.insert("command", Json::text(login.command.as_str()));
    row.insert("proxy_endpoint", Json::text(login.endpoint.as_str()));
    Ok(Output::One(Json::Object(row)))
}

/// An image to be copied.
#[derive(Debug)]
pub struct CopyPlan {
    pub src_repo: String,
    pub src_tag: String,
    pub dst_repo: String,
    pub dst_tag: String,
}

/// Which tag the arguments add to which image.
pub open spec fn retag_asked(args: Seq<Seq<char>>, r: Result<CopyPlan, AwlError>) -> bool {
    let words = common::positionals(args);
    match r {
        Ok(plan) => {
            &&& common::required_at(words, 0, "repo"@) == Ok::<Seq<char>, Failure>(
                plan.src_repo@,
            )
            &&& common::required_at(words, 1, "src-tag"@) == Ok::<Seq<char>, Failure>(
                plan.src_tag@,
            )
            &&& common::required_at(words, 2, "dst-tag"@) == Ok::<Seq<char>, Failure>(
                plan.dst_tag@,
            )
            &&& plan.dst_repo@ == plan.src_repo@
        },
        Err(error) => match common::required_at(words, 0, "repo"@) {
            Err(failure) => error@ == failure,
            Ok(_) => match common::required_at(words, 1, "src-tag"@) {
                Err(failure) => error@ == failure,
                Ok(_) => common::required_at(words, 2, "dst-tag"@) == Err::<
                    Seq<char>,
                    Failure,
                >(error@),
            },
        },
    }
}

/// The tag that `retag` gives to an image in its repository.
pub fn retag_plan(args: &[String]) -> (r: Result<CopyPlan, AwlError>)
    ensures
        retag_asked(args.deep_view(), r),
{
    let words = common::positional(args);
    let repo = match common::required(words.as_slice(), 0, "repo") {
        Ok(repo) => repo,
        Err(error) => return Err(error),
    };
    let src_tag = match common::required(words.as_slice(), 1, "src-tag") {
        Ok(tag) => tag,
        Err(error) => return Err(error),
    };
    match common::required(words.as_slice(), 2, "dst-tag") {
        Ok(dst_tag) => Ok(CopyPlan { src_repo: repo.clone(), src_tag, dst_repo: repo, dst_tag }),
        Err(error) => Err(error),
    }
}

/// The record of an image that got another tag.
pub open spec fn retag_tree(plan: CopyPlan) -> JsonTree {
    JsonTree::Object(
        map![
            "repository"@ => JsonTree::Text(plan.src_repo@),
            "source_tag"@ => JsonTree::Text(plan.src_tag@),
            "destination_tag"@ => JsonTree::Text(plan.dst_tag@),
        ],
    )
}

/// What is shown of a new tag.
pub fn retag_row(plan: &CopyPlan) -> (r: Output)
    ensures
        r@ == Shown::One(retag_tree(*plan)),
{
    let mut row = Fields::new();
    row.insert("repository", Json::text(plan.src_repo.as_str()));
    row.insert("source_tag", Json::text(plan.src_tag.as_str()));
    row.insert("destination_tag", Json::text(plan.dst_tag.as_str()));
    Output::One(Json::Object(row))
}

/// The two images of a copy, as they were named, and their parts.
pub open spec fn copy_asked(args: Seq<Seq<char>>) -> Result<
    (Seq<char>, Seq<char>, (Seq<char>, Seq<char>), (Seq<char>, Seq<char>)),
    Failure,
> {
    let words = common::positionals(args);
    match common::required_at(words, 0, "src-repo:tag"@) {
        Err(failure) => Err(failure),
        Ok(src) => match common::required_at(words, 1, "dst-repo:tag"@) {
            Err(failure) => Err(failure),
            Ok(dst) => match image_parts(src) {
                Err(failure) => Err(failure),
                Ok(from) => match image_parts(dst) {
                    Err(failure) => Err(failure),
                    Ok(to) => Ok((src, dst, from, to)),
                },
            },
        },
    }
}

/// The image that `cp` copies, and the two images as they were named.
pub fn copy_plan(args: &[String]) -> (r: Result<(CopyPlan, String, String), AwlError>)
    ensures
        match r {
            Ok((plan, src, dst)) => copy_asked(args.deep_view()) == Ok::<
                (Seq<char>, Seq<char>, (Seq<char>, Seq<char>), (Seq<char>, Seq<char>)),
                Failure,
            >(
                (
                    src@,
                    dst@,
                    (plan.src_repo@, plan.src_tag@),
                    (plan.dst_repo@, plan.dst_tag@),
                ),
            ),
            Err(error) => copy_asked(args.deep_view()) == Err::<
                (Seq<char>, Seq<char>, (Seq<char>, Seq<char>), (Seq<char>, Seq<char>)),
                Failure,
            >(error@),
        },
{
    let words = common::positional(args);
    let src = match common::required(words.as_slice(), 0, "src-repo:tag") {
        Ok(src) => src,
        Err(error) => return Err(error),
    };
    let dst = match common::required(words.as_slice(), 1, "dst-repo:tag") {
        Ok(dst) => dst,
        Err(error) => return Err(error),
    };
    let (src_repo, src_tag) = match split_image_ref(src.as_str()) {
        Ok(parts) => parts,
        Err(error) => return Err(error),
    };
    match split_image_ref(dst.as_str()) {
        Ok((dst_repo, dst_tag)) => Ok(
            (CopyPlan { src_repo, src_tag, dst_repo, dst_tag }, src, dst),
        ),
        Err(error) => Err(error),
    }
}

/// The record of an image that was copied.
pub open spec fn copy_tree(src: Seq<char>, dst: Seq<char>) -> JsonTree {
    JsonTree::Object(
        map![
            "source"@ => JsonTree::Text(src),
            "destination"@ => JsonTree::Text(dst),
        ],
    )
}

/// What is shown of a copy.
pub fn copy_row(src: &str, dst: &str) -> (r: Output)
    ensures
        r@ == Shown::One(copy_tree(src@, dst@)),
{
    let mut row = Fields::new();
    row.insert("source", Json::text(src));
    row.insert("destination", Json::text(dst));
    Output::One(Json::Object(row))
}

/// An image as it is named in messages.
pub open spec fn image_name(plan: CopyPlan) -> Seq<char> {
    "image "@ + plan.src_repo@ + ":"@ + plan.src_tag@
}

/// The manifest of the first image found.
pub open spec fn manifest_of(
    plan: CopyPlan,
    images: Seq<Option<String>>,
) -> Result<Seq<char>, Failure> {
    if images.len() == 0 {
        Err(Failure::NotFound(image_name(plan) + " not found"@))
    } else {
        match images[0] {
            Some(manifest) => Ok(manifest@),
            None => Err(Failure::NotFound(image_name(plan) + " has no manifest"@)),
        }
    }
}

/// The manifest to be written, from the images that the service found: that of
/// the first image.
pub fn source_manifest(plan: &CopyPlan, images: &Vec<Option<String>>) -> (r: Result<
    String,
    AwlError,
>)
    ensures
        told(r) == manifest_of(*plan, images@),
{
    let name = "image ".to_owned().concat(plan.src_repo.as_str()).concat(":").concat(
        plan.src_tag.as_str(),
    );
    if images.len() == 0 {
        return Err(AwlError::NotFound { message: name.concat(" not found") });
    }
    match &images[0] {
        Some(manifest) => Ok(manifest.clone()),
        None => Err(AwlError::NotFound { message: name.concat(" has no manifest") }),
    }
}

/// An image that is named on the command line, with its parts.
pub open spec fn image_asked(args: Seq<Seq<char>>) -> Result<
    (Seq<char>, (Seq<char>, Seq<char>)),
    Failure,
> {
    match common::required_at(common::positionals(args), 0, "repo:tag"@) {
        Err(failure) => Err(failure),
        Ok(image) => match image_parts(image) {
            Err(failure) => Err(failure),
            Ok(parts) => Ok((image, parts)),
        },
    }
}

/// An image that is named on the command line.
#[derive(Debug)]
pub struct ImageArg {
    pub image: String,
    pub repo: String,
    pub tag: String,
}

/// The image that `scan` and `digest` ask about.
pub fn image_arg(args: &[String]) -> (r: Result<ImageArg, AwlError>)
    ensures
        match r {
            Ok(arg) => image_asked(args.deep_view()) == Ok::<
                (Seq<char>, (Seq<char>, Seq<char>)),
                Failure,
            >((arg.image@, (arg.repo@, arg.tag@))),
            Err(error) => image_asked(args.deep_view()) == Err::<
                (Seq<char>, (Seq<char>, Seq<char>)),
                Failure,
            >(error@),
        },
{
    let words = common::positional(args);
    match common::required(words.as_slice(), 0, "repo:tag") {
        Err(error) => Err(error),
        Ok(image) => match split_image_ref(image.as_str()) {
            Err(error) => Err(error),
            Ok((repo, tag)) => Ok(ImageArg { image, repo, tag }),
        },
    }
}

/// The numbers by name that pairs give: of two with one name the later.
pub open spec fn count_fields(counts: Seq<(Seq<char>, i32)>) -> Map<Seq<char>, JsonTree>
    decreases counts.len(),
{
    if counts.len() == 0 {
        Map::empty()
    } else {
        count_fields(counts.drop_last()).insert(
            counts.last().0,
            json::whole(counts.last().1 as int),
        )
    }
}

/// The record of what a scan found in an image.
pub open spec fn scan_tree(
    image: Seq<char>,
    status: Option<Seq<char>>,
    counts: Option<Vec<(String, i32)>>,
) -> JsonTree {
    JsonTree::Object(
        map![
            "image"@ => JsonTree::Text(image),
            "status"@ => json::optional_text(status),
            "finding_severity_counts"@ => match counts {
                Some(counts) => JsonTree::Object(count_fields(counts.deep_view())),
                None => JsonTree::Null,
            },
        ],
    )
}

/// What is shown of a scan.
pub fn scan_row(
    image: &str,
    status: Option<&str>,
    counts: &Option<Vec<(String, i32)>>,
) -> (r: Output)
    ensures
        r@ == Shown::One(scan_tree(image@, status.deep_view(), *counts)),
{
    let mut row = Fields::new();
    row.insert("image", Json::text(image));
    row.insert("status", Json::optional_text(status));
    let shown = match counts {
        None => Json::Null,
        Some(counts) => {
            let mut fields = Fields::new();
            let mut i: usize = 0;
            assert(counts.deep_view().take(0) =~= Seq::empty());
            while i < counts.len()
                invariant
                    i <= counts.len(),
                    fields.contents() == count_fields(counts.deep_view().take(i as int)),
                decreases counts.len() - i,
            {
                fields.insert(counts[i].0.as_str(), Json::signed(counts[i].1 as i64));
                assert(counts.deep_view().take(i + 1).drop_last() =~= counts.deep_view().take(
                    i as int,
                ));
                i += 1;
            }
            assert(counts.deep_view().take(i as int) =~= counts.deep_view());
            Json::Object(fields)
        },
    };
    row.insert("finding_severity_counts", shown);
    Output::One(Json::Object(row))
}

/// The record of the digest of an image.
pub open spec fn digest_tree(image: Seq<char>, digests: Seq<Option<String>>) -> JsonTree {
    JsonTree::Object(
        map![
            "image"@ => JsonTree::Text(image),
            "digest"@ => if digests.len() > 0 {
                json::optional_text(digests[0].deep_view())
            } else {
                JsonTree::Null
            },
        ],
    )
}

/// What is shown of an image's digest: that of the first image that the service
/// describes.
pub fn digest_row(image: &str, digests: &Vec<Option<String>>) -> (r: Output)
    ensures
        r@ == Shown::One(digest_tree(image@, digests@)),
{
    let mut row = Fields::new();
    row.insert("image", Json::text(image));
    let digest = if digests.len() > 0 {
        Json::optional_string(&digests[0])
    } else {
        Json::Null
    };
    row.insert("digest", digest);
    Output::One(Json::Object(row))
}

/// The tags of images are listed image by image: those of one image follow those
/// of the images before it, each with what is known of its image.
pub proof fn law_each_tag_is_listed(images: Seq<ImageInfo>, image: ImageInfo, i: int)
    requires
        0 <= i < image.tags@.len(),
    ensures
        ({
            let before = tag_trees(images);
            let after = tag_trees(images.push(image));
            &&& after.len() == before.len() + image.tags@.len()
            &&& after.take(before.len() as int) == before
            &&& output::shows(after[before.len() + i], "tag"@, image.tags@[i]@)
            &&& output::shows(
                after[before.len() + i],
                "digest"@,
                output::written_text(image.digest.deep_view()),
            )
        }),
        tag_trees(Seq::<ImageInfo>::empty()).len() == 0,
{
    assert(images.push(image).drop_last() =~= images);
    let before = tag_trees(images);
    let after = tag_trees(images.push(image));
    assert(after.take(before.len() as int) =~= before);
    assert(after[before.len() + i] == tag_tree(image, image.tags@[i]@));
    law_tag_row_shows_it(image, image.tags@[i]@);
}

/// The password of a login is what follows the first colon of the decoded token,
/// whatever the user before it.
pub proof fn law_password_follows_the_user(user: Seq<char>, password: Seq<char>)
    requires
        !user.contains(':'),
    ensures
        password_in(user + seq![':'] + password) == password,
        password_in(user) == user,
{
    reveal_strlit(":");
    assert(":"@ =~= seq![':']);
    text::lemma_split_first(user, ':', password);
    text::lemma_find_from(user, ":"@, 0);
    if let Some(i) = text::find_text(user, ":"@) {
        assert(user.subrange(i, i + 1)[0] == ':');
        assert(user.contains(user[i]));
    }
}

/// A login is at the endpoint that the service gives, and with the password of the
/// token: without a token that can be read there is none.
pub proof fn law_login_is_at_the_endpoint(data: Seq<AuthorizationData>)
    ensures
        login_of(data) matches Ok(login) ==> data.len() > 0 && {
            &&& data[0].token matches Some(token)
            &&& base64_bytes(token@) matches Ok(bytes)
            &&& login.password == password_in(lossy(bytes))
            &&& login.endpoint == output::written_text(data[0].endpoint.deep_view())
            &&& login.endpoint.is_suffix_of(login.command)
            &&& login.command == "docker login --username "@ + "AWS"@ + " --password-stdin "@
                + login.endpoint
        },
        data.len() == 0 || data[0].token is None ==> login_of(data) matches Err(
            Failure::Authentication(_),
        ),
        login_of(data) matches Err(failure) ==> failure is Authentication,
{
    reveal_strlit("docker login --username AWS --password-stdin ");
    reveal_strlit("docker login --username ");
    reveal_strlit("AWS");
    reveal_strlit(" --password-stdin ");
    assert("docker login --username AWS --password-stdin "@ =~= "docker login --username "@ + "AWS"@
        + " --password-stdin "@);
    if let Ok(login) = login_of(data) {
        let n = login.command.len() - login.endpoint.len();
        assert(login.endpoint =~= login.command.subrange(n, login.command.len() as int));
    }
}

/// An image is copied from the first that is named to the second, each taken apart
/// at its last colon; both must be named with a tag.
pub proof fn law_copy_is_from_first_to_second(args: Seq<Seq<char>>)
    ensures
        copy_asked(args) matches Ok((src, dst, from, to)) ==> {
            let words = common::positionals(args);
            &&& words.len() >= 2
            &&& src == words[0]
            &&& dst == words[1]
            &&& text::split_last(words[0], ':') == Some(from)
            &&& text::split_last(words[1], ':') == Some(to)
        },
        common::positionals(args).len() < 2 ==> copy_asked(args) matches Err(Failure::Usage(_)),
        image_asked(args) matches Ok((image, parts)) ==> common::positionals(args).len() > 0
            && image == common::positionals(args)[0] && text::split_last(image, ':') == Some(parts),
{
}

/// The number of findings of each severity is shown.
pub proof fn law_counts_are_held(
    counts: Seq<(Seq<char>, i32)>,
    name: Seq<char>,
    count: i32,
    other: Seq<char>,
)
    ensures
        output::shows(
            JsonTree::Object(count_fields(counts.push((name, count)))),
            name,
            crate::number::signed_decimal(count as int),
        ),
        other != name ==> (count_fields(counts.push((name, count))).contains_key(other)
            <==> count_fields(counts).contains_key(other)),
        other != name && count_fields(counts).contains_key(other) ==> count_fields(
            counts.push((name, count)),
        )[other] == count_fields(counts)[other],
{
    assert(counts.push((name, count)).drop_last() =~= counts);
    output::lemma_shows(count_fields(counts.push((name, count))), name);
}

/// The row of a tag shows the tag, and the digest, the time and the size of its image.
pub proof fn law_tag_row_shows_it(image: ImageInfo, tag: Seq<char>)
    ensures
        output::shows(tag_tree(image, tag), "tag"@, tag),
        output::shows(
            tag_tree(image, tag),
            "digest"@,
            output::written_text(image.digest.deep_view()),
        ),
        output::shows(
            tag_tree(image, tag),
            "pushed_at"@,
            output::written_text(image.pushed_at.deep_view()),
        ),
        output::shows(tag_tree(image, tag), "size"@, output::written_number(image.size)),
{
    reveal_strlit("tag");
    reveal_strlit("digest");
    reveal_strlit("pushed_at");
    reveal_strlit("size");
    assert("tag"@.len() == 3);
    assert("digest"@.len() == 6);
    assert("pushed_at"@.len() == 9);
    assert("size"@.len() == 4);
    let fields = tag_tree(image, tag)->Object_0;
    output::lemma_shows(fields, "tag"@);
    output::lemma_shows(fields, "digest"@);
    output::lemma_shows(fields, "pushed_at"@);
    output::lemma_shows(fields, "size"@);
}

/// The row of a repository shows its name, its URI and its registry.
pub proof fn law_repository_row_shows_it(repo: RepositoryInfo)
    ensures
        output::shows(
            repository_tree(repo),
            "repository_name"@,
            output::written_text(repo.name.deep_view()),
        ),
        output::shows(
            repository_tree(repo),
            "repository_uri"@,
            output::written_text(repo.uri.deep_view()),
        ),
        output::shows(
            repository_tree(repo),
            "registry_id"@,
            output::written_text(repo.registry_id.deep_view()),
        ),
{
    reveal_strlit("repository_name");
    reveal_strlit("repository_uri");
    reveal_strlit("registry_id");
    assert("repository_name"@.len() == 15);
    assert("repository_uri"@.len() == 14);
    assert("registry_id"@.len() == 11);
    let fields = repository_tree(repo)->Object_0;
    output::lemma_shows(fields, "repository_name"@);
    output::lemma_shows(fields, "repository_uri"@);
    output::lemma_shows(fields, "registry_id"@);
}

/// A tag is added in the repository of the first word: the image of the second word
/// gets the third word as a tag.
pub proof fn law_retag_is_as_asked(words: Seq<Seq<char>>, r: Result<CopyPlan, AwlError>)
    requires
        common::are_words(words),
        retag_asked(words, r),
    ensures
        words.len() > 2 ==> (r matches Ok(plan) && plan.src_repo@ == words[0] && plan.dst_repo@
            == words[0] && plan.src_tag@ == words[1] && plan.dst_tag@ == words[2]),
        words.len() <= 2 ==> (r matches Err(error) && error@ is Usage),
{
    common::law_words_give_no_option(words);
}

/// What is copied is the manifest of the first image found; without one, or without
/// its manifest, none is found.
pub proof fn law_manifest_is_that_of_the_first(
    plan: CopyPlan,
    manifest: String,
    rest: Seq<Option<String>>,
)
    ensures
        manifest_of(plan, seq![Some(manifest)] + rest) == Ok::<Seq<char>, Failure>(manifest@),
        manifest_of(plan, seq![None] + rest) matches Err(Failure::NotFound(_)),
        manifest_of(plan, Seq::empty()) matches Err(Failure::NotFound(_)),
{
}

/// The record of an image with another tag shows the repository and both tags.
pub proof fn law_retag_row_shows_it(plan: CopyPlan)
    ensures
        output::shows(retag_tree(plan), "repository"@, plan.src_repo@),
        output::shows(retag_tree(plan), "source_tag"@, plan.src_tag@),
        output::shows(retag_tree(plan), "destination_tag"@, plan.dst_tag@),
{
    reveal_strlit("repository");
    reveal_strlit("source_tag");
    reveal_strlit("destination_tag");
    assert("repository"@.len() == 10);
    assert("source_tag"@.len() == 10);
    assert("destination_tag"@.len() == 15);
    assert("repository"@[0] != "source_tag"@[0]);
    let fields = retag_tree(plan)->Object_0;
    output::lemma_shows(fields, "repository"@);
    output::lemma_shows(fields, "source_tag"@);
    output::lemma_shows(fields, "destination_tag"@);
}

/// The record of a copy shows where from and where to.
pub proof fn law_copy_row_shows_it(src: Seq<char>, dst: Seq<char>)
    ensures
        output::shows(copy_tree(src, dst), "source"@, src),
        output::shows(copy_tree(src, dst), "destination"@, dst),
{
    reveal_strlit("source");
    reveal_strlit("destination");
    assert("source"@.len() == 6);
    assert("destination"@.len() == 11);
    let fields = copy_tree(src, dst)->Object_0;
    output::lemma_shows(fields, "source"@);
    output::lemma_shows(fields, "destination"@);
}

/// The record of a scan shows the image, how far the scan is, and its counts.
pub proof fn law_scan_row_shows_it(
    image: Seq<char>,
    status: Option<Seq<char>>,
    counts: Vec<(String, i32)>,
)
    ensures
        scan_tree(image, status, Some(counts))->Object_0["finding_severity_counts"@]
            == JsonTree::Object(count_fields(counts.deep_view())),
        scan_tree(image, status, None)->Object_0["finding_severity_counts"@] is Null,
        output::shows(scan_tree(image, status, Some(counts)), "image"@, image),
        output::shows(
            scan_tree(image, status, Some(counts)),
            "status"@,
            output::written_text(status),
        ),
{
    reveal_strlit("image");
    reveal_strlit("status");
    assert("image"@.len() == 5);
    assert("status"@.len() == 6);
    reveal_strlit("finding_severity_counts");
    assert("finding_severity_counts"@.len() == 23);
    let fields = scan_tree(image, status, Some(counts))->Object_0;
    output::lemma_shows(fields, "image"@);
    output::lemma_shows(fields, "status"@);
}

/// The record of an image shows the digest of the first image found.
pub proof fn law_digest_row_shows_it(
    image: Seq<char>,
    digest: Option<String>,
    rest: Seq<Option<String>>,
)
    ensures
        output::shows(digest_tree(image, seq![digest] + rest), "image"@, image),
        output::shows(
            digest_tree(image, seq![digest] + rest),
            "digest"@,
            output::written_text(digest.deep_view()),
        ),
{
    reveal_strlit("image");
    reveal_strlit("digest");
    assert("image"@.len() == 5);
    assert("digest"@.len() == 6);
    let fields = digest_tree(image, seq![digest] + rest)->Object_0;
    output::lemma_shows(fields, "image"@);
    output::lemma_shows(fields, "digest"@);
}

/// A login that succeeded shows its command and where it is; one that failed shows
/// the status.
pub proof fn law_login_is_shown(login: LoginView, status: Seq<char>)
    ensures
        login_shown(login, None) matches Ok(Shown::One(row)) && output::shows(
            row,
            "command"@,
            login.command,
        ) && output::shows(row, "proxy_endpoint"@, login.endpoint),
        login_shown(login, Some(status)) matches Err(Failure::Aws(message)) && status.is_suffix_of(
            message,
        ),
{
    reveal_strlit("command");
    reveal_strlit("proxy_endpoint");
    assert("command"@.len() == 7);
    assert("proxy_endpoint"@.len() == 14);
    let fields = map![
        "command"@ => JsonTree::Text(login.command),
        "proxy_endpoint"@ => JsonTree::Text(login.endpoint),
    ];
    output::lemma_shows(fields, "command"@);
    output::lemma_shows(fields, "proxy_endpoint"@);
    let message = "docker login failed with status "@ + status;
    assert(message.subrange(message.len() - status.len(), message.len() as int) =~= status);
}

/// There is a record for each of the repositories, in order.
pub proof fn law_repository_rows_are_all_shown(repos: Seq<RepositoryInfo>, i: int)
    requires
        0 <= i < repos.len(),
    ensures
        repositories_shown(repos) matches Shown::Many(rows) && rows.len() == repos.len() && rows[i]
            == repository_tree(repos[i]),
{
}

/// What is run to log in is the command that is shown.
pub proof fn law_login_runs_what_is_shown(decoded: Seq<char>, endpoint: Option<Seq<char>>)
    ensures
        login_with(decoded, endpoint).command == "docker "@ + text::joined(
            login_words(login_with(decoded, endpoint).endpoint),
            " "@,
        ),
{
    let place = login_with(decoded, endpoint).endpoint;
    let words = login_words(place);
    let sep = " "@;
    reveal_strlit("docker login --username AWS --password-stdin ");
    reveal_strlit("docker ");
    reveal_strlit("login");
    reveal_strlit("--username");
    reveal_strlit("AWS");
    reveal_strlit("--password-stdin");
    reveal_strlit(" ");
    let one = seq!["login"@];
    let two = one.push("--username"@);
    let three = two.push("AWS"@);
    let four = three.push("--password-stdin"@);
    assert(words =~= four.push(place));
    assert(two.drop_last() =~= one && three.drop_last() =~= two && four.drop_last() =~= three
        && words.drop_last() =~= four);
    assert(text::joined(one, sep) == "login"@);
    assert(text::joined(two, sep) == "login"@ + sep + "--username"@);
    assert(text::joined(three, sep) == text::joined(two, sep) + sep + "AWS"@);
    assert(text::joined(four, sep) == text::joined(three, sep) + sep + "--password-stdin"@);
    assert(text::joined(words, sep) == text::joined(four, sep) + sep + place);
    let head = "docker "@ + (text::joined(four, sep) + sep);
    assert("docker login --username AWS --password-stdin "@ =~= head);
    assert("docker "@ + text::joined(words, sep) =~= head + place);
}

} // verus!
