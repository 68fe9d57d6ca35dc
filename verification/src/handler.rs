//! From a request to its response: where a selector leads, the pages for
//! clients that speak another protocol, and what is sent for what was found.

use crate::buffer::{buffer_of, contents};
use crate::menu::{
    first_byte, lemma_first_byte, line_content, parse_line, Menu, MenuItem, MenuItemDecoder,
    MenuItemView, Parsed,
};
use crate::request::{Request, LF};
use crate::response::{views_of, Response, ResponseView};
use crate::text::{contains, ends_with, has_prefix, has_suffix, occurs, starts_with, to_chars};
use crate::types::ItemType;
use vstd::prelude::*;
use vstd::utf8::encode_utf8;
use vstd::string::{StrSliceExecFns, StringExecFns};

verus! {

/// `std::path::PathBuf`, held for the caller and never looked into.
#[verifier::external_type_specification]
#[verifier::external_body]
pub struct ExPathBuf(std::path::PathBuf);

#[derive(Debug)]
pub struct Config {
    pub server_address: String,
    pub document_root: std::path::PathBuf,
    pub hostname: String,
    pub port: u16,
}

pub const REDIRECT_OPEN: &'static str =
    "<!doctype html>\n<html>\n    <head>\n        <meta http-equiv=\"refresh\" content=\"5;URL=";

pub const REDIRECT_TITLE: &'static str = "\">\n        <title>Gopher redirect to URL: ";

pub const REDIRECT_BODY: &'static str =
    "</title>\n    </head>\n    <body>\n        <p>You're being redirected to a HTTP URL: <code>";

pub const REDIRECT_LINK: &'static str = "</code>\n        <p>Click <a href=\"";

pub const REDIRECT_CLOSE: &'static str =
    "\">here</a> if you are not redirected automatically.\n        <address>generated by gofer</address>\n    </body>\n</html>";

pub const BAD_REQUEST_OPEN: &'static str =
    "HTTP/1.0 400 Bad Request\r\nContent-Type: text/html\r\n\r\n<!doctype html>\n<html>\n    <head>\n        <title>This is a Gopher server</title>\n    </head>\n    <body>\n        <p>This is a Gopher server but it looks like you've made a HTTP request.\n        <p>If you're using a Gopher-capable browser, click <a href=\"";

pub const BAD_REQUEST_CLOSE: &'static str =
    "\">here</a> to use a Gopher\n           URL to view this page properly.\n        <address>generated by gofer</address>\n    </body>\n</html>";

/// The page that sends a browser on to `url`.
pub open spec fn redirect_page(url: Seq<char>) -> Seq<char> {
    REDIRECT_OPEN@ + url + REDIRECT_TITLE@ + url + REDIRECT_BODY@ + url + REDIRECT_LINK@ + url
        + REDIRECT_CLOSE@
}

/// The answer to a browser that asked over HTTP: a page that points to `url`.
pub open spec fn bad_request_page(url: Seq<char>) -> Seq<char> {
    BAD_REQUEST_OPEN@ + url + BAD_REQUEST_CLOSE@
}

/// For clients that don't understand the "URL:..." selector format.
pub fn html_redirect(url: &str) -> (page: String)
    ensures
        page@ == redirect_page(url@),
{
    let mut page = String::from_str(REDIRECT_OPEN);
    page.append(url);
    page.append(REDIRECT_TITLE);
    page.append(url);
    page.append(REDIRECT_BODY);
    page.append(url);
    page.append(REDIRECT_LINK);
    page.append(url);
    page.append(REDIRECT_CLOSE);
    page
}

/// This isn't really valid HTTP because it's missing required headers, but
/// it's enough to get the page to display in a browser.
pub fn http_response(url: &str) -> (page: String)
    ensures
        page@ == bad_request_page(url@),
{
    let mut page = String::from_str(BAD_REQUEST_OPEN);
    page.append(url);
    page.append(BAD_REQUEST_CLOSE);
    page
}


/// Where a selector leads.
#[derive(Debug)]
pub enum Route {
    /// To the document root itself.
    Root,
    /// To what lies at this path below the document root.
    Lookup(String),
    /// To a page that sends the client on to this URL.
    Redirect(String),
    /// To a page for a browser that asked over HTTP for this path.
    Http(String),
    /// Nowhere: the path tries to leave the document root.
    Denied,
    /// Nowhere: the selector has none of the known forms.
    NotFound,
}

pub enum RouteView {
    Root,
    Lookup(Seq<char>),
    Redirect(Seq<char>),
    Http(Seq<char>),
    Denied,
    NotFound,
}

impl View for Route {
    type V = RouteView;

    open spec fn view(&self) -> RouteView {
        match self {
            Route::Root => RouteView::Root,
            Route::Lookup(path) => RouteView::Lookup(path@),
            Route::Redirect(url) => RouteView::Redirect(url@),
            Route::Http(path) => RouteView::Http(path@),
            Route::Denied => RouteView::Denied,
            Route::NotFound => RouteView::NotFound,
        }
    }
}

/// Whether the selector is the first line of an HTTP request: `GET`, a
/// path, and the protocol version, parted by single spaces.
pub open spec fn is_http_probe(selector: Seq<char>) -> bool {
    &&& has_prefix(selector, "GET "@)
    &&& has_suffix(selector, " HTTP/1.1"@) || has_suffix(selector, " HTTP/1.0"@)
    &&& selector.len() >= 13
}

/// Whether a path selector could lead out of the document root.
pub open spec fn traverses(selector: Seq<char>) -> bool {
    selector == "/.."@ || occurs(selector, "/../"@) || occurs(selector, "//"@)
}

pub open spec fn route_of(selector: Seq<char>) -> RouteView {
    if selector.len() == 0 {
        RouteView::Root
    } else if has_prefix(selector, "URL:"@) {
        RouteView::Redirect(selector.skip(4))
    } else if is_http_probe(selector) {
        RouteView::Http(selector.subrange(4, selector.len() - 9))
    } else if selector[0] == '/' {
        if traverses(selector) {
            RouteView::Denied
        } else {
            RouteView::Lookup(selector.skip(1))
        }
    } else {
        RouteView::NotFound
    }
}

pub fn route(selector: &str) -> (route: Route)
    ensures
        route@ == route_of(selector@),
{
    proof {
        reveal_strlit("URL:");
        reveal_strlit("GET ");
        reveal_strlit(" HTTP/1.1");
        reveal_strlit(" HTTP/1.0");
        reveal_strlit("/..");
        reveal_strlit("/");
    }
    let chars = to_chars(selector);
    let n = chars.len();
    if n == 0 {
        return Route::Root;
    }
    if starts_with(&chars, &to_chars("URL:")) {
        let url = selector.substring_char(4, n);
        assert(url@ =~= selector@.skip(4));
        return Route::Redirect(url.to_owned());
    }
    if n >= 13 && starts_with(&chars, &to_chars("GET ")) && (ends_with(
        &chars,
        &to_chars(" HTTP/1.1"),
    ) || ends_with(&chars, &to_chars(" HTTP/1.0"))) {
        return Route::Http(selector.substring_char(4, n - 9).to_owned());
    }
    if starts_with(&chars, &to_chars("/")) {
        assert(selector@.subrange(0, 1)[0] == "/"@[0]);
        let only_dots = n == 3 && starts_with(&chars, &to_chars("/.."));
        assert(only_dots == (selector@ == "/.."@)) by {
            if n == 3 {
                assert(selector@.subrange(0, 3) =~= selector@);
            }
        }
        if only_dots || contains(&chars, &to_chars("/../")) || contains(&chars, &to_chars("//")) {
            return Route::Denied;
        }
        let path = selector.substring_char(1, n);
        assert(path@ =~= selector@.skip(1));
        return Route::Lookup(path.to_owned());
    }
    assert(selector@[0] != '/') by {
        if selector@[0] == '/' {
            assert(selector@.subrange(0, 1) =~= "/"@);
        }
    }
    Route::NotFound
}

/// The character of a digit.
pub open spec fn digit(d: nat) -> char {
    if d == 0 {
        '0'
    } else if d == 1 {
        '1'
    } else if d == 2 {
        '2'
    } else if d == 3 {
        '3'
    } else if d == 4 {
        '4'
    } else if d == 5 {
        '5'
    } else if d == 6 {
        '6'
    } else if d == 7 {
        '7'
    } else if d == 8 {
        '8'
    } else {
        '9'
    }
}

/// A number in decimal digits, without leading zeros.
pub open spec fn decimal(n: nat) -> Seq<char>
    decreases n,
{
    if n < 10 {
        seq![digit(n)]
    } else {
        decimal(n / 10).push(digit(n % 10))
    }
}

/// `u16::to_string` writes the number in decimal digits.
#[verifier::external_body]
pub(crate) fn port_text(port: u16) -> (text: String)
    ensures
        text@ == decimal(port as nat),
{
    port.to_string()
}

/// The address of a place on this server, for a client that can follow it.
pub open spec fn gopher_url(hostname: Seq<char>, port: u16, path: Seq<char>) -> Seq<char> {
    "gopher://"@ + hostname + ":"@ + decimal(port as nat) + "/1"@ + path
}


/// An item as it is sent for a line of a menu file. A line may leave out the
/// host, or the host and the port, of an item that lies on this server; they
/// are filled in: this server's name and port, or the usual port of a host
/// that the line names. Texts and errors point nowhere and stay as they are.
pub open spec fn filled(item: MenuItemView, hostname: Seq<char>, port: u16) -> MenuItemView {
    if item.typ == ItemType::Info || item.typ == ItemType::Error {
        item
    } else if item.port is None {
        if item.host is None {
            MenuItemView { host: Some(hostname), port: Some(decimal(port as nat)), ..item }
        } else {
            MenuItemView { port: Some("70"@), ..item }
        }
    } else if item.host is None {
        MenuItemView { host: Some(hostname), ..item }
    } else {
        item
    }
}

pub fn fill_in(item: MenuItem, config: &Config) -> (full: MenuItem)
    ensures
        full@ == filled(item@, config.hostname@, config.port),
{
    let mut item = item;
    if item.typ != ItemType::Info && item.typ != ItemType::Error {
        if item.port.is_none() {
            if item.host.is_none() {
                item.host = Some(config.hostname.clone());
                item.port = Some(port_text(config.port));
            } else {
                item.port = Some("70".to_owned());
            }
        } else if item.host.is_none() {
            item.host = Some(config.hostname.clone());
        }
    }
    item
}

/// The items of a menu file: one for each line that parses, filled in, in
/// the order of the lines. A line that does not parse gives no item, and
/// neither does what follows the last line end.
pub open spec fn menu_items(source: Seq<u8>, hostname: Seq<char>, port: u16) -> Seq<MenuItemView>
    decreases source.len(),
{
    let end = first_byte(source, LF, 0);
    if end < 0 || end >= source.len() {
        Seq::empty()
    } else {
        let rest = menu_items(source.skip(end + 1), hostname, port);
        match parse_line(line_content(source.take(end))) {
            Parsed::Item(item) => seq![filled(item, hostname, port)] + rest,
            _ => rest,
        }
    }
}

pub fn parse_menu(source: &[u8], config: &Config) -> (items: Vec<MenuItem>)
    ensures
        views_of(items@) == menu_items(source@, config.hostname@, config.port),
{
    let ghost hostname = config.hostname@;
    let mut buf = buffer_of(source);
    let mut decoder = MenuItemDecoder::new();
    let mut items: Vec<MenuItem> = Vec::new();
    assert(views_of(items@) =~= Seq::<MenuItemView>::empty());
    loop
        invariant_except_break
            decoder.pending() == Seq::<u8>::empty(),
        invariant
            decoder.wf(),
            hostname == config.hostname@,
            views_of(items@) + menu_items(contents(buf), hostname, config.port) == menu_items(
                source@,
                hostname,
                config.port,
            ),
        ensures
            views_of(items@) == menu_items(source@, hostname, config.port),
        decreases contents(buf).len(),
    {
        let ghost before = contents(buf);
        let ghost so_far = views_of(items@);
        proof {
            assert(decoder.pending() + before =~= before);
            lemma_first_byte(before, LF, 0);
        }
        match decoder.decode(&mut buf) {
            Ok(Some(item)) => {
                let full = fill_in(item, config);
                items.push(full);
                assert(views_of(items@) =~= so_far.push(full@));
                assert(so_far.push(full@) + menu_items(contents(buf), hostname, config.port)
                    =~= so_far + menu_items(before, hostname, config.port));
            },
            Ok(None) => {
                assert(so_far + Seq::<MenuItemView>::empty() =~= so_far);
                break ;
            },
            Err(_) => {},
        }
    }
    items
}


/// What a listing reads of one entry of a directory.
#[derive(Debug)]
pub struct DirEntry {
    pub file_name: String,
    pub is_dir: bool,
}

/// What was found at the place a selector leads to.
#[derive(Debug)]
pub enum FileType {
    /// A directory without a menu file, and its entries.
    Directory(Vec<DirEntry>),
    /// A directory with a menu file, and what the file holds.
    Menu(Vec<u8>),
    /// A file, and what it holds.
    File(Vec<u8>),
    NotFound,
}

/// The outcome of a lookup as plain values.
pub enum Found {
    Directory(Seq<DirEntry>),
    Menu(Seq<u8>),
    File(Seq<u8>),
    NotFound,
    /// The lookup itself failed.
    Failed,
}

pub open spec fn found_of(lookup: Result<FileType, std::io::Error>) -> Found {
    match lookup {
        Ok(FileType::Directory(entries)) => Found::Directory(entries@),
        Ok(FileType::Menu(source)) => Found::Menu(source@),
        Ok(FileType::File(bytes)) => Found::File(bytes@),
        Ok(FileType::NotFound) => Found::NotFound,
        Err(_) => Found::Failed,
    }
}

/// A text item as plain values.
pub open spec fn info_item(text: Seq<char>) -> MenuItemView {
    MenuItemView {
        typ: ItemType::Info,
        text,
        selector: Seq::empty(),
        host: None,
        port: None,
    }
}

/// The item for an entry of the directory that `selector` leads to.
pub open spec fn entry_item(
    entry: DirEntry,
    selector: Seq<char>,
    hostname: Seq<char>,
    port: u16,
) -> MenuItemView {
    MenuItemView {
        typ: if entry.is_dir {
            ItemType::Directory
        } else {
            ItemType::File
        },
        text: entry.file_name@,
        selector: selector + "/"@ + entry.file_name@,
        host: Some(hostname),
        port: Some(decimal(port as nat)),
    }
}

/// The menu made for a directory: a heading with the server's name and the
/// selector, an empty line, and an item for each entry.
pub open spec fn listing(
    entries: Seq<DirEntry>,
    selector: Seq<char>,
    hostname: Seq<char>,
    port: u16,
) -> Seq<MenuItemView> {
    seq![info_item("["@ + hostname + selector + "]"@), info_item(Seq::empty())] + entries.map_values(
        |entry: DirEntry| entry_item(entry, selector, hostname, port),
    )
}

pub fn direntry_menuitem(entry: &DirEntry, selector: &str, config: &Config) -> (item: MenuItem)
    ensures
        item@ == entry_item(*entry, selector@, config.hostname@, config.port),
{
    let typ = if entry.is_dir {
        ItemType::Directory
    } else {
        // Images, sounds and the like are listed as plain files too.
        ItemType::File
    };
    let mut target = String::from_str(selector);
    target.append("/");
    target.append(entry.file_name.as_str());
    MenuItem::new(
        typ,
        entry.file_name.clone(),
        target,
        config.hostname.clone(),
        port_text(config.port),
    )
}

pub fn generate_menu(entries: &Vec<DirEntry>, selector: &str, config: &Config) -> (response:
    Response)
    ensures
        response@ == ResponseView::Menu(
            listing(entries@, selector@, config.hostname@, config.port),
        ),
{
    let mut heading = String::from_str("[");
    heading.append(config.hostname.as_str());
    heading.append(selector);
    heading.append("]");
    let mut items: Vec<MenuItem> = Vec::new();
    items.push(MenuItem::info(heading));
    items.push(MenuItem::info(String::new()));
    let ghost head = views_of(items@);
    let ghost made = |entry: DirEntry| entry_item(entry, selector@, config.hostname@, config.port);
    assert(head =~= seq![
        info_item("["@ + config.hostname@ + selector@ + "]"@),
        info_item(Seq::empty()),
    ]);
    let n = entries.len();
    let mut i: usize = 0;
    while i < n
        invariant
            i <= n,
            n == entries@.len(),
            made == |entry: DirEntry| entry_item(entry, selector@, config.hostname@, config.port),
            views_of(items@) == head + entries@.take(i as int).map_values(made),
        decreases n - i,
    {
        let item = direntry_menuitem(&entries[i], selector, config);
        let ghost so_far = views_of(items@);
        items.push(item);
        i += 1;
        assert(views_of(items@) =~= so_far.push(item@));
        assert(so_far.push(item@) =~= head + entries@.take(i as int).map_values(made));
    }
    assert(entries@.take(n as int) =~= entries@);
    Response::Menu(Menu::new(items))
}

/// What is sent for a selector, given what the lookup found. A selector
/// that leads to no place on disk is answered without regard to the lookup.
pub open spec fn answer(hostname: Seq<char>, port: u16, selector: Seq<char>, found: Found) -> ResponseView {
    match route_of(selector) {
        RouteView::Redirect(url) => ResponseView::Raw(encode_utf8(redirect_page(url))),
        RouteView::Http(path) => ResponseView::Raw(
            encode_utf8(bad_request_page(gopher_url(hostname, port, path))),
        ),
        RouteView::Denied => ResponseView::Error("directory traversal denied"@),
        RouteView::NotFound => ResponseView::Error("not found"@),
        RouteView::Root | RouteView::Lookup(_) => match found {
            Found::Menu(source) => ResponseView::Menu(menu_items(source, hostname, port)),
            Found::Directory(entries) => ResponseView::Menu(
                listing(entries, selector, hostname, port),
            ),
            Found::File(bytes) => ResponseView::File(bytes),
            Found::NotFound => ResponseView::Error("not found"@),
            Found::Failed => ResponseView::Error("I/O error"@),
        },
    }
}

/// Builds the response to a request. `lookup` is what was found at the place
/// that `route` gives for the selector; for a selector that leads to no place
/// it is not looked at.
pub fn handle_request(
    config: &Config,
    req: &Request,
    lookup: Result<FileType, std::io::Error>,
) -> (response: Response)
    ensures
        response@ == answer(config.hostname@, config.port, req.selector@, found_of(lookup)),
{
    let selector = req.selector.as_str();
    match route(selector) {
        Route::Redirect(url) => Response::Raw(html_redirect(url.as_str()).as_str().as_bytes_vec()),
        Route::Http(path) => {
            // We don't know what the type is, but let's assume directory.
            let mut url = String::from_str("gopher://");
            url.append(config.hostname.as_str());
            url.append(":");
            url.append(port_text(config.port).as_str());
            url.append("/1");
            url.append(path.as_str());
            Response::Raw(http_response(url.as_str()).as_str().as_bytes_vec())
        },
        Route::Denied => Response::Error("directory traversal denied".to_owned()),
        Route::NotFound => Response::Error("not found".to_owned()),
        Route::Root | Route::Lookup(_) => match lookup {
            Ok(FileType::Menu(source)) => Response::Menu(
                Menu::new(parse_menu(source.as_slice(), config)),
            ),
            Ok(FileType::Directory(entries)) => generate_menu(&entries, selector, config),
            Ok(FileType::File(bytes)) => Response::File(bytes),
            Ok(FileType::NotFound) => Response::Error("not found".to_owned()),
            Err(e) => Response::from_io_error(e),
        },
    }
}

} // verus!
