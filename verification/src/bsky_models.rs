//! Record and view types of the `app.bsky` Lexicons.
use vstd::prelude::*;
use vstd::string::*;
use crate::json::JsonValue;

verus! {

#[derive(Debug, Clone, PartialEq)]
pub struct ActorDefsAdultContentPref {
    pub enabled: bool,
}

#[derive(Debug, Clone, PartialEq)]
pub struct ActorDefsBskyAppProgressGuide {
    pub guide: String,
}

#[derive(Debug, Clone, PartialEq)]
pub struct ActorDefsBskyAppStatePref {
    pub active_progress_guide: Option<ActorDefsBskyAppProgressGuide>,
    pub nuxs: Option<Vec<ActorDefsNux>>,
    pub queued_nudges: Option<Vec<String>>,
}

#[derive(Debug, Clone, PartialEq)]
pub struct ActorDefsContentLabelPref {
    pub label: String,
    pub labeler_did: Option<String>,
    pub visibility: String,
}

#[derive(Debug, Clone, PartialEq)]
pub struct ActorDefsDeclaredAgePref {
    pub is_over_age13: Option<bool>,
    pub is_over_age16: Option<bool>,
    pub is_over_age18: Option<bool>,
}

#[derive(Debug, Clone, PartialEq)]
pub struct ActorDefsFeedViewPref {
    pub feed: String,
    pub hide_quote_posts: Option<bool>,
    pub hide_replies: Option<bool>,
    pub hide_replies_by_like_count: Option<i64>,
    pub hide_replies_by_unfollowed: Option<bool>,
    pub hide_reposts: Option<bool>,
}

#[derive(Debug, Clone, PartialEq)]
pub struct ActorDefsHiddenPostsPref {
    pub items: Vec<String>,
}

#[derive(Debug, Clone, PartialEq)]
pub struct ActorDefsInterestsPref {
    pub tags: Vec<String>,
}

#[derive(Debug)]
pub struct ActorDefsKnownFollowers {
    pub count: i64,
    pub followers: Vec<ActorDefsProfileViewBasic>,
}

#[derive(Debug, Clone, PartialEq)]
pub struct ActorDefsLabelerPrefItem {
    pub did: String,
}

#[derive(Debug, Clone, PartialEq)]
pub struct ActorDefsLabelersPref {
    pub labelers: Vec<ActorDefsLabelerPrefItem>,
}

#[derive(Debug, Clone, PartialEq)]
pub struct ActorDefsLiveEventPreferences {
    pub hidden_feed_ids: Option<Vec<String>>,
    pub hide_all_feeds: Option<bool>,
}

#[derive(Debug)]
pub struct ActorDefsMutedWord {
    pub actor_target: Option<String>,
    pub expires_at: Option<String>,
    pub id: Option<String>,
    pub targets: Vec<JsonValue>,
    pub value: String,
}

#[derive(Debug)]
pub struct ActorDefsMutedWordsPref {
    pub items: Vec<ActorDefsMutedWord>,
}

#[derive(Debug, Clone, PartialEq)]
pub struct ActorDefsNux {
    pub completed: bool,
    pub data: Option<String>,
    pub expires_at: Option<String>,
    pub id: String,
}

#[derive(Debug, Clone, PartialEq)]
pub struct ActorDefsPersonalDetailsPref {
    pub birth_date: Option<String>,
}

#[derive(Debug)]
pub struct ActorDefsPostInteractionSettingsPref {
    pub postgate_embedding_rules: Option<Vec<JsonValue>>,
    pub threadgate_allow_rules: Option<Vec<JsonValue>>,
}

#[derive(Debug, Clone, PartialEq)]
pub struct ActorDefsProfileAssociated {
    pub activity_subscription: Option<ActorDefsProfileAssociatedActivitySubscription>,
    pub chat: Option<ActorDefsProfileAssociatedChat>,
    pub feedgens: Option<i64>,
    pub germ: Option<ActorDefsProfileAssociatedGerm>,
    pub labeler: Option<bool>,
    pub lists: Option<i64>,
    pub starter_packs: Option<i64>,
}

#[derive(Debug, Clone, PartialEq)]
pub struct ActorDefsProfileAssociatedActivitySubscription {
    pub allow_subscriptions: String,
}

#[derive(Debug, Clone, PartialEq)]
pub struct ActorDefsProfileAssociatedChat {
    pub allow_group_invites: Option<String>,
    pub allow_incoming: String,
}

#[derive(Debug, Clone, PartialEq)]
pub struct ActorDefsProfileAssociatedGerm {
    pub message_me_url: String,
    pub show_button_to: String,
}

#[derive(Debug)]
pub struct ActorDefsProfileView {
    pub associated: Option<ActorDefsProfileAssociated>,
    pub avatar: Option<String>,
    pub created_at: Option<String>,
    pub debug: Option<JsonValue>,
    pub description: Option<String>,
    pub did: String,
    pub display_name: Option<String>,
    pub handle: String,
    pub indexed_at: Option<String>,
    pub labels: Option<Vec<JsonValue>>,
    pub pronouns: Option<String>,
    pub status: Option<ActorDefsStatusView>,
    pub verification: Option<ActorDefsVerificationState>,
    pub viewer: Option<ActorDefsViewerState>,
}

#[derive(Debug)]
pub struct ActorDefsProfileViewBasic {
    pub associated: Option<ActorDefsProfileAssociated>,
    pub avatar: Option<String>,
    pub created_at: Option<String>,
    pub debug: Option<JsonValue>,
    pub did: String,
    pub display_name: Option<String>,
    pub handle: String,
    pub labels: Option<Vec<JsonValue>>,
    pub pronouns: Option<String>,
    pub status: Option<ActorDefsStatusView>,
    pub verification: Option<ActorDefsVerificationState>,
    pub viewer: Option<ActorDefsViewerState>,
}

#[derive(Debug)]
pub struct ActorDefsProfileViewDetailed {
    pub associated: Option<ActorDefsProfileAssociated>,
    pub avatar: Option<String>,
    pub banner: Option<String>,
    pub created_at: Option<String>,
    pub debug: Option<JsonValue>,
    pub description: Option<String>,
    pub did: String,
    pub display_name: Option<String>,
    pub followers_count: Option<i64>,
    pub follows_count: Option<i64>,
    pub handle: String,
    pub indexed_at: Option<String>,
    pub joined_via_starter_pack: Option<JsonValue>,
    pub labels: Option<Vec<JsonValue>>,
    pub pinned_post: Option<JsonValue>,
    pub posts_count: Option<i64>,
    pub pronouns: Option<String>,
    pub status: Option<ActorDefsStatusView>,
    pub verification: Option<ActorDefsVerificationState>,
    pub viewer: Option<ActorDefsViewerState>,
    pub website: Option<String>,
}

#[derive(Debug, Clone, PartialEq)]
pub struct ActorDefsSavedFeed {
    pub id: String,
    pub pinned: bool,
    pub kind: String,
    pub value: String,
}

#[derive(Debug, Clone, PartialEq)]
pub struct ActorDefsSavedFeedsPref {
    pub pinned: Vec<String>,
    pub saved: Vec<String>,
    pub timeline_index: Option<i64>,
}

#[derive(Debug, Clone, PartialEq)]
pub struct ActorDefsSavedFeedsPrefV2 {
    pub items: Vec<ActorDefsSavedFeed>,
}

#[derive(Debug)]
pub struct ActorDefsStatusView {
    pub cid: Option<String>,
    pub embed: Option<JsonValue>,
    pub expires_at: Option<String>,
    pub is_active: Option<bool>,
    pub is_disabled: Option<bool>,
    pub labels: Option<Vec<JsonValue>>,
    pub record: JsonValue,
    pub status: String,
    pub uri: Option<String>,
}

#[derive(Debug, Clone, PartialEq)]
pub struct ActorDefsThreadViewPref {
    pub sort: Option<String>,
}

#[derive(Debug, Clone, PartialEq)]
pub struct ActorDefsVerificationPrefs {
    pub hide_badges: Option<bool>,
}

#[derive(Debug, Clone, PartialEq)]
pub struct ActorDefsVerificationState {
    pub trusted_verifier_status: String,
    pub verifications: Vec<ActorDefsVerificationView>,
    pub verified_status: String,
}

#[derive(Debug, Clone, PartialEq)]
pub struct ActorDefsVerificationView {
    pub created_at: String,
    pub is_valid: bool,
    pub issuer: String,
    pub uri: String,
}

#[derive(Debug)]
pub struct ActorDefsViewerState {
    pub activity_subscription: Option<JsonValue>,
    pub blocked_by: Option<bool>,
    pub blocking: Option<String>,
    pub blocking_by_list: Option<JsonValue>,
    pub followed_by: Option<String>,
    pub following: Option<String>,
    pub known_followers: Option<ActorDefsKnownFollowers>,
    pub muted: Option<bool>,
    pub muted_by_list: Option<JsonValue>,
}

#[derive(Debug)]
pub struct FeedDefsBlockedAuthor {
    pub did: String,
    pub viewer: Option<ActorDefsViewerState>,
}

#[derive(Debug)]
pub struct FeedDefsBlockedPost {
    pub author: FeedDefsBlockedAuthor,
    pub blocked: bool,
    pub uri: String,
}

#[derive(Debug)]
pub struct FeedDefsFeedViewPost {
    pub feed_context: Option<String>,
    pub post: FeedDefsPostView,
    pub reason: Option<JsonValue>,
    pub reply: Option<FeedDefsReplyRef>,
    pub req_id: Option<String>,
}

#[derive(Debug)]
pub struct FeedDefsGeneratorView {
    pub accepts_interactions: Option<bool>,
    pub avatar: Option<String>,
    pub cid: String,
    pub content_mode: Option<String>,
    pub creator: ActorDefsProfileView,
    pub description: Option<String>,
    pub description_facets: Option<Vec<JsonValue>>,
    pub did: String,
    pub display_name: String,
    pub indexed_at: String,
    pub labels: Option<Vec<JsonValue>>,
    pub like_count: Option<i64>,
    pub uri: String,
    pub viewer: Option<FeedDefsGeneratorViewerState>,
}

#[derive(Debug, Clone, PartialEq)]
pub struct FeedDefsGeneratorViewerState {
    pub like: Option<String>,
}

#[derive(Debug, Clone, PartialEq)]
pub struct FeedDefsInteraction {
    pub event: Option<String>,
    pub feed_context: Option<String>,
    pub item: Option<String>,
    pub req_id: Option<String>,
}

#[derive(Debug, Clone, PartialEq)]
pub struct FeedDefsNotFoundPost {
    pub not_found: bool,
    pub uri: String,
}

#[derive(Debug)]
pub struct FeedDefsPostView {
    pub author: ActorDefsProfileViewBasic,
    pub bookmark_count: Option<i64>,
    pub cid: String,
    pub debug: Option<JsonValue>,
    pub embed: Option<JsonValue>,
    pub indexed_at: String,
    pub labels: Option<Vec<JsonValue>>,
    pub like_count: Option<i64>,
    pub quote_count: Option<i64>,
    pub record: JsonValue,
    pub reply_count: Option<i64>,
    pub repost_count: Option<i64>,
    pub threadgate: Option<FeedDefsThreadgateView>,
    pub uri: String,
    pub viewer: Option<FeedDefsViewerState>,
}

#[derive(Debug, Clone, PartialEq)]
pub struct FeedDefsReasonPin {}

#[derive(Debug)]
pub struct FeedDefsReasonRepost {
    pub by: ActorDefsProfileViewBasic,
    pub cid: Option<String>,
    pub indexed_at: String,
    pub uri: Option<String>,
}

#[derive(Debug)]
pub struct FeedDefsReplyRef {
    pub grandparent_author: Option<ActorDefsProfileViewBasic>,
    pub parent: JsonValue,
    pub root: JsonValue,
}

#[derive(Debug)]
pub struct FeedDefsSkeletonFeedPost {
    pub feed_context: Option<String>,
    pub post: String,
    pub reason: Option<JsonValue>,
}

#[derive(Debug, Clone, PartialEq)]
pub struct FeedDefsSkeletonReasonPin {}

#[derive(Debug, Clone, PartialEq)]
pub struct FeedDefsSkeletonReasonRepost {
    pub repost: String,
}

#[derive(Debug, Clone, PartialEq)]
pub struct FeedDefsThreadContext {
    pub root_author_like: Option<String>,
}

#[derive(Debug)]
pub struct FeedDefsThreadViewPost {
    pub parent: Option<JsonValue>,
    pub post: FeedDefsPostView,
    pub replies: Option<Vec<JsonValue>>,
    pub thread_context: Option<FeedDefsThreadContext>,
}

#[derive(Debug)]
pub struct FeedDefsThreadgateView {
    pub cid: Option<String>,
    pub lists: Option<Vec<JsonValue>>,
    pub record: Option<JsonValue>,
    pub uri: Option<String>,
}

#[derive(Debug, Clone, PartialEq)]
pub struct FeedDefsViewerState {
    pub bookmarked: Option<bool>,
    pub embedding_disabled: Option<bool>,
    pub like: Option<String>,
    pub pinned: Option<bool>,
    pub reply_disabled: Option<bool>,
    pub repost: Option<String>,
    pub thread_muted: Option<bool>,
}

#[derive(Debug, Clone, PartialEq)]
pub struct GetAuthorFeedParams {
    pub actor: String,
    pub cursor: Option<String>,
    pub filter: Option<String>,
    pub include_pins: Option<bool>,
    pub limit: Option<i64>,
}

#[derive(Debug)]
pub struct GetAuthorFeedOutput {
    pub cursor: Option<String>,
    pub feed: Vec<FeedDefsFeedViewPost>,
}

#[derive(Debug, Clone, PartialEq)]
pub struct PostEntity {
    pub index: PostTextSlice,
    pub kind: String,
    pub value: String,
}

#[derive(Debug)]
pub struct Post {
    pub kind: String,
    pub created_at: String,
    pub embed: Option<JsonValue>,
    pub entities: Option<Vec<PostEntity>>,
    pub facets: Option<Vec<JsonValue>>,
    pub labels: Option<JsonValue>,
    pub langs: Option<Vec<String>>,
    pub reply: Option<PostReplyRef>,
    pub tags: Option<Vec<String>>,
    pub text: String,
}

/// The `$type` of a record of this kind.
pub fn default_post_type() -> (r: String)
    ensures
        r@ == "app.bsky.feed.post"@,
{
    String::from_str("app.bsky.feed.post")
}

#[derive(Debug)]
pub struct PostReplyRef {
    pub parent: JsonValue,
    pub root: JsonValue,
}

#[derive(Debug, Clone, PartialEq)]
pub struct PostTextSlice {
    pub end: i64,
    pub start: i64,
}

#[derive(Debug, Clone, PartialEq)]
pub struct GetFollowersParams {
    pub actor: String,
    pub cursor: Option<String>,
    pub limit: Option<i64>,
}

#[derive(Debug)]
pub struct GetFollowersOutput {
    pub cursor: Option<String>,
    pub followers: Vec<ActorDefsProfileView>,
    pub subject: ActorDefsProfileView,
}

} // verus!
