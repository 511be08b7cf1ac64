//! Desktop notifications: what one says, and where a click on it leads.

use vstd::prelude::*;

use crate::text;

verus! {

/// A notification that is to be shown.
pub struct Toast {
    pub summary: String,
    pub body: String,
    pub sound: bool,
    /// The address of a picture.
    pub avatar: Option<String>,
    /// The channel that a click opens.
    pub login: Option<String>,
}

pub struct ToastView {
    pub summary: Seq<char>,
    pub body: Seq<char>,
    pub sound: bool,
    pub avatar: Option<Seq<char>>,
    pub login: Option<Seq<char>>,
}

impl View for Toast {
    type V = ToastView;

    open spec fn view(&self) -> ToastView {
        ToastView {
            summary: self.summary@,
            body: self.body@,
            sound: self.sound,
            avatar: text::opt(self.avatar),
            login: text::opt(self.login),
        }
    }
}

/// A notification whose picture is a local file.
pub struct ToastJob {
    pub summary: String,
    pub body: String,
    pub sound: bool,
    pub image: Option<String>,
    pub login: Option<String>,
}

/// The job shows the notification, with that picture.
pub open spec fn carries(job: ToastJob, toast: ToastView, image: Option<Seq<char>>) -> bool {
    &&& job.summary@ == toast.summary
    &&& job.body@ == toast.body
    &&& job.sound == toast.sound
    &&& text::opt(job.image) == image
    &&& text::opt(job.login) == toast.login
}

/// A job shows every part of the notification as it is, and the picture that was found for it.
pub proof fn lemma_jobs_in_full(job: ToastJob, toast: ToastView, image: Option<Seq<char>>)
    requires
        carries(job, toast, image),
    ensures
        job.summary@ == toast.summary,
        job.body@ == toast.body,
        job.sound <==> toast.sound,
        job.image is Some <==> image is Some,
        job.image matches Some(path) ==> image == Some(path@),
        job.login is Some <==> toast.login is Some,
        job.login matches Some(login) ==> toast.login == Some(login@),
{
}

impl Toast {
    /// The notification with the picture that was found for it.
    pub fn into_job(self, image: Option<String>) -> (job: ToastJob)
        ensures
            carries(job, self@, text::opt(image)),
            job.image == image,
    {
        ToastJob {
            summary: self.summary,
            body: self.body,
            sound: self.sound,
            image,
            login: self.login,
        }
    }
}

/// The name of the file that a picture is kept in: the last segment of its address.
pub open spec fn file_name_of(url: Seq<char>) -> Option<Seq<char>> {
    text::nonempty(Some(text::after_last(url, '/')))
}

/// The name of a picture's file holds no slash, the address ends with it, and before it stands a
/// slash or nothing. An address names none exactly if it is empty or ends in a slash.
pub proof fn lemma_picture_files(url: Seq<char>)
    ensures
        file_name_of(url) is None <==> url.len() == 0 || url.last() == '/',
        file_name_of(url) matches Some(name) ==> {
            let n = url.len() - name.len();
            &&& name.len() > 0
            &&& n >= 0
            &&& name == url.skip(n)
            &&& !name.contains('/')
            &&& n == 0 || url[n - 1] == '/'
        },
{
    text::laws::last_segments_in_full(url, '/');
    let name = text::after_last(url, '/');
    if url.len() > 0 && url.last() == '/' && name.len() > 0 {
        assert(name.last() == url.last());
        assert(name.contains('/'));
    }
}

/// The name of the file that a picture is kept in. The address of a changed picture differs, so
/// it gets a file of its own. An address that ends in a slash names none.
pub fn avatar_file_name(url: &str) -> (name: Option<String>)
    ensures
        text::opt(name) == file_name_of(url@),
{
    text::filter_empty(Some(text::last_segment(url, '/')))
}

/// The page of a channel.
pub open spec fn page_of(login: Seq<char>) -> Seq<char> {
    "https://www.twitch.tv/"@ + login
}

/// A click leads to Twitch, and there to the channel: the last part of the page's address is its
/// login.
pub proof fn lemma_pages_in_full(login: Seq<char>)
    requires
        !login.contains('/'),
    ensures
        page_of(login).len() == 22 + login.len(),
        page_of(login).take(22) == "https://www.twitch.tv/"@,
        text::after_last(page_of(login), '/') == login,
{
    reveal_strlit("https://www.twitch.tv/");
    let url = page_of(login);
    assert(url.take(22) =~= "https://www.twitch.tv/"@);
    text::laws::last_segments_in_full(url, '/');
    let name = text::after_last(url, '/');
    let n = url.len() - name.len();
    assert(url[21] == '/');
    if n < 22 {
        assert(name[21 - n] == '/');
        assert(name.contains('/'));
    }
    if n > 22 {
        assert(login[n - 1 - 22] == '/');
        assert(login.contains('/'));
    }
    assert(name =~= login);
}

/// The page of a channel.
pub fn channel_url(login: &str) -> (url: String)
    ensures
        url@ == page_of(login@),
{
    let mut url: String = "https://www.twitch.tv/".to_string();
    url.append(login);
    url
}

/// The sound of a notification.
pub open spec fn sound_of(sound: bool) -> Seq<char> {
    if sound {
        "Default"@
    } else {
        "Silent"@
    }
}

/// A notification rings exactly if it has its sound.
pub proof fn lemma_sounds_in_full(sound: bool)
    ensures
        sound <==> sound_of(sound) == "Default"@,
        !sound <==> sound_of(sound) == "Silent"@,
{
    reveal_strlit("Default");
    reveal_strlit("Silent");
    assert("Default"@.len() == 7);
    assert("Silent"@.len() == 6);
}

/// The sound of a notification. `Silent` names no sound, so none is played.
pub fn sound_name(sound: bool) -> (name: &'static str)
    ensures
        name@ == sound_of(sound),
{
    if sound {
        "Default"
    } else {
        "Silent"
    }
}

} // verus!
