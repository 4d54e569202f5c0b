//! Static-site building blocks: the page shell, the shared navigation
//! and footer fragments, and the inline icons.

use vstd::prelude::*;

verus! {

/// The shell of every page: the head with the title, then the body.
pub fn html_page(title: &str, body: &str) -> (r: String)
    ensures
        r@ == "<!doctype html>\n<html lang=\"en\">\n<head>\n  <meta charset=\"utf-8\" />\n  <meta name=\"viewport\" content=\"width=device-width, initial-scale=1\" />\n  <title>"@
            + title@
            + "</title>\n  <link rel=\"stylesheet\" href=\"/assets/style.css\" />\n</head>\n<body>\n"@
            + body@ + "\n</body>\n</html>\n"@,
{
    let mut page =
        "<!doctype html>\n<html lang=\"en\">\n<head>\n  <meta charset=\"utf-8\" />\n  <meta name=\"viewport\" content=\"width=device-width, initial-scale=1\" />\n  <title>".to_owned();
    page.append(title);
    page.append(
        "</title>\n  <link rel=\"stylesheet\" href=\"/assets/style.css\" />\n</head>\n<body>\n",
    );
    page.append(body);
    page.append("\n</body>\n</html>\n");
    proof {
        assert(page@ =~= "<!doctype html>\n<html lang=\"en\">\n<head>\n  <meta charset=\"utf-8\" />\n  <meta name=\"viewport\" content=\"width=device-width, initial-scale=1\" />\n  <title>"@
            + title@
            + "</title>\n  <link rel=\"stylesheet\" href=\"/assets/style.css\" />\n</head>\n<body>\n"@
            + body@ + "\n</body>\n</html>\n"@);
    }
    page
}

/// The site-wide header with navigation to the latest week.
pub fn nav_html(week_date: &str) -> (r: String)
    ensures
        r@ == "\n<header class=\"site-header\">\n  <div class=\"nav-inner\">\n    <div class=\"nav-brand\">\n      "@
            + "<svg class=\"icon\" viewBox=\"0 0 24 24\" aria-hidden=\"true\"><path d=\"M3 21h18M5 21V9l7-4 7 4v12M9 21v-6h6v6M2 9l10-5 10 5\"/></svg>"@
            + "\n      <span>LaRue Civic Intel</span>\n    </div>\n    <nav class=\"nav-links\">\n      <a href=\"/\">Home</a>\n      <a href=\"/stockade/index.html\">Stockade</a>\n      <a href=\"/officials/index.html\">Officials</a>\n      <a href=\"/weeks/"@
            + week_date@
            + ".html\">Latest Week</a>\n    </nav>\n    <div class=\"nav-search\" aria-disabled=\"true\">\n      "@
            + "<svg class=\"icon\" viewBox=\"0 0 24 24\" aria-hidden=\"true\"><circle cx=\"11\" cy=\"11\" r=\"7\"/><path d=\"M20 20l-3-3\"/></svg>"@
            + "\n      <input type=\"text\" placeholder=\"Search (coming soon)\" disabled />\n    </div>\n  </div>\n</header>\n"@,
{
    let mut h =
        "\n<header class=\"site-header\">\n  <div class=\"nav-inner\">\n    <div class=\"nav-brand\">\n      ".to_owned();
    h.append(icon_court());
    h.append(
        "\n      <span>LaRue Civic Intel</span>\n    </div>\n    <nav class=\"nav-links\">\n      <a href=\"/\">Home</a>\n      <a href=\"/stockade/index.html\">Stockade</a>\n      <a href=\"/officials/index.html\">Officials</a>\n      <a href=\"/weeks/",
    );
    h.append(week_date);
    h.append(
        ".html\">Latest Week</a>\n    </nav>\n    <div class=\"nav-search\" aria-disabled=\"true\">\n      ",
    );
    h.append(icon_search());
    h.append(
        "\n      <input type=\"text\" placeholder=\"Search (coming soon)\" disabled />\n    </div>\n  </div>\n</header>\n",
    );
    proof {
        assert(h@ =~= "\n<header class=\"site-header\">\n  <div class=\"nav-inner\">\n    <div class=\"nav-brand\">\n      "@
            + "<svg class=\"icon\" viewBox=\"0 0 24 24\" aria-hidden=\"true\"><path d=\"M3 21h18M5 21V9l7-4 7 4v12M9 21v-6h6v6M2 9l10-5 10 5\"/></svg>"@
            + "\n      <span>LaRue Civic Intel</span>\n    </div>\n    <nav class=\"nav-links\">\n      <a href=\"/\">Home</a>\n      <a href=\"/stockade/index.html\">Stockade</a>\n      <a href=\"/officials/index.html\">Officials</a>\n      <a href=\"/weeks/"@
            + week_date@
            + ".html\">Latest Week</a>\n    </nav>\n    <div class=\"nav-search\" aria-disabled=\"true\">\n      "@
            + "<svg class=\"icon\" viewBox=\"0 0 24 24\" aria-hidden=\"true\"><circle cx=\"11\" cy=\"11\" r=\"7\"/><path d=\"M20 20l-3-3\"/></svg>"@
            + "\n      <input type=\"text\" placeholder=\"Search (coming soon)\" disabled />\n    </div>\n  </div>\n</header>\n"@);
    }
    h
}

/// The site-wide footer with the latest weekly report link.
pub fn footer_html(week_date: &str) -> (r: String)
    ensures
        r@ == "\n<footer class=\"footer\">\n  <div class=\"footer-inner\">\n    <div class=\"footer-links\">\n      <a class=\"btn\" href=\"https://github.com/sponsors/Yisonco-Stellargold\">Sponsor</a>\n      <a href=\"https://github.com/Yisonco-Stellargold/larue-civic-intel\">Repository</a>\n      <a href=\"/reports/weekly/"@
            + week_date@
            + ".json\">Latest report JSON</a>\n    </div>\n    <div class=\"subtitle\">Rubric-based scoring; commentary is opinion/satire. Always consult primary sources.</div>\n  </div>\n</footer>\n"@,
{
    let mut f =
        "\n<footer class=\"footer\">\n  <div class=\"footer-inner\">\n    <div class=\"footer-links\">\n      <a class=\"btn\" href=\"https://github.com/sponsors/Yisonco-Stellargold\">Sponsor</a>\n      <a href=\"https://github.com/Yisonco-Stellargold/larue-civic-intel\">Repository</a>\n      <a href=\"/reports/weekly/".to_owned();
    f.append(week_date);
    f.append(
        ".json\">Latest report JSON</a>\n    </div>\n    <div class=\"subtitle\">Rubric-based scoring; commentary is opinion/satire. Always consult primary sources.</div>\n  </div>\n</footer>\n",
    );
    proof {
        assert(f@ =~= "\n<footer class=\"footer\">\n  <div class=\"footer-inner\">\n    <div class=\"footer-links\">\n      <a class=\"btn\" href=\"https://github.com/sponsors/Yisonco-Stellargold\">Sponsor</a>\n      <a href=\"https://github.com/Yisonco-Stellargold/larue-civic-intel\">Repository</a>\n      <a href=\"/reports/weekly/"@
            + week_date@
            + ".json\">Latest report JSON</a>\n    </div>\n    <div class=\"subtitle\">Rubric-based scoring; commentary is opinion/satire. Always consult primary sources.</div>\n  </div>\n</footer>\n"@);
    }
    f
}

/// The courthouse icon.
pub fn icon_court() -> (r: &'static str)
    ensures
        r@ == "<svg class=\"icon\" viewBox=\"0 0 24 24\" aria-hidden=\"true\"><path d=\"M3 21h18M5 21V9l7-4 7 4v12M9 21v-6h6v6M2 9l10-5 10 5\"/></svg>"@,
{
    "<svg class=\"icon\" viewBox=\"0 0 24 24\" aria-hidden=\"true\"><path d=\"M3 21h18M5 21V9l7-4 7 4v12M9 21v-6h6v6M2 9l10-5 10 5\"/></svg>"
}

/// The graduation-cap icon.
pub fn icon_cap() -> (r: &'static str)
    ensures
        r@ == "<svg class=\"icon\" viewBox=\"0 0 24 24\" aria-hidden=\"true\"><path d=\"M2 9l10-5 10 5-10 5-10-5Z\"/><path d=\"M6 12v4c0 1.5 3 3 6 3s6-1.5 6-3v-4\"/></svg>"@,
{
    "<svg class=\"icon\" viewBox=\"0 0 24 24\" aria-hidden=\"true\"><path d=\"M2 9l10-5 10 5-10 5-10-5Z\"/><path d=\"M6 12v4c0 1.5 3 3 6 3s6-1.5 6-3v-4\"/></svg>"
}

/// The ballot icon.
pub fn icon_ballot() -> (r: &'static str)
    ensures
        r@ == "<svg class=\"icon\" viewBox=\"0 0 24 24\" aria-hidden=\"true\"><path d=\"M4 4h12v6H4z\"/><path d=\"M8 14h12v6H8z\"/><path d=\"M16 4l6 6M16 10l6-6\"/></svg>"@,
{
    "<svg class=\"icon\" viewBox=\"0 0 24 24\" aria-hidden=\"true\"><path d=\"M4 4h12v6H4z\"/><path d=\"M8 14h12v6H8z\"/><path d=\"M16 4l6 6M16 10l6-6\"/></svg>"
}

/// The magnifier icon.
pub fn icon_search() -> (r: &'static str)
    ensures
        r@ == "<svg class=\"icon\" viewBox=\"0 0 24 24\" aria-hidden=\"true\"><circle cx=\"11\" cy=\"11\" r=\"7\"/><path d=\"M20 20l-3-3\"/></svg>"@,
{
    "<svg class=\"icon\" viewBox=\"0 0 24 24\" aria-hidden=\"true\"><circle cx=\"11\" cy=\"11\" r=\"7\"/><path d=\"M20 20l-3-3\"/></svg>"
}

/// The upward-trend icon.
pub fn icon_trend_up() -> (r: &'static str)
    ensures
        r@ == "<svg class=\"icon\" viewBox=\"0 0 24 24\" aria-hidden=\"true\"><path d=\"M4 16l6-6 4 4 6-6\"/><path d=\"M14 8h6v6\"/></svg>"@,
{
    "<svg class=\"icon\" viewBox=\"0 0 24 24\" aria-hidden=\"true\"><path d=\"M4 16l6-6 4 4 6-6\"/><path d=\"M14 8h6v6\"/></svg>"
}

/// The downward-trend icon.
pub fn icon_trend_down() -> (r: &'static str)
    ensures
        r@ == "<svg class=\"icon\" viewBox=\"0 0 24 24\" aria-hidden=\"true\"><path d=\"M4 8l6 6 4-4 6 6\"/><path d=\"M14 16h6v-6\"/></svg>"@,
{
    "<svg class=\"icon\" viewBox=\"0 0 24 24\" aria-hidden=\"true\"><path d=\"M4 8l6 6 4-4 6 6\"/><path d=\"M14 16h6v-6\"/></svg>"
}

/// The alert icon.
pub fn icon_alert() -> (r: &'static str)
    ensures
        r@ == "<svg class=\"icon\" viewBox=\"0 0 24 24\" aria-hidden=\"true\"><path d=\"M12 3l9 16H3l9-16Z\"/><path d=\"M12 9v4\"/><path d=\"M12 17h.01\"/></svg>"@,
{
    "<svg class=\"icon\" viewBox=\"0 0 24 24\" aria-hidden=\"true\"><path d=\"M12 3l9 16H3l9-16Z\"/><path d=\"M12 9v4\"/><path d=\"M12 17h.01\"/></svg>"
}

/// The information icon.
pub fn icon_info() -> (r: &'static str)
    ensures
        r@ == "<svg class=\"icon\" viewBox=\"0 0 24 24\" aria-hidden=\"true\"><circle cx=\"12\" cy=\"12\" r=\"9\"/><path d=\"M12 10v6\"/><path d=\"M12 7h.01\"/></svg>"@,
{
    "<svg class=\"icon\" viewBox=\"0 0 24 24\" aria-hidden=\"true\"><circle cx=\"12\" cy=\"12\" r=\"9\"/><path d=\"M12 10v6\"/><path d=\"M12 7h.01\"/></svg>"
}

} // verus!
