//! The built-in default list of bot user-agent signature patterns.
//!
//! A curated, newline-delimited list balancing broad coverage of known
//! crawlers, scrapers and monitoring agents against not flagging real
//! browsers. Each line is one pattern; the store lower-cases them on
//! construction. The lines are flush against the left margin because a
//! pattern keeps any leading whitespace it is written with.

use vstd::prelude::*;

verus! {

pub const DEFAULT_BOT_PATTERNS: &'static str = "adbeat
ahrefsbot
aiohttp
apis-google
applebot
baiduspider
bingbot
bingpreview/
bitlybot
chrome-lighthouse
crawler
curl/
datadog agent
discordbot
dotbot
duckduckbot
embedly
exabot
facebookexternalhit
facebot
feedfetcher
go-http-client
google favicon
google-
googlebot
gtmetrix
headlesschrome
httpclient
ia_archiver
libwww-perl
linkedinbot
mediapartners-google
mj12bot
okhttp
outbrain
petalbot
phantomjs
pingdom
pinterestbot
python-requests
python-urllib
quora link preview
rogerbot
scrapy
screaming frog
semrushbot
seznambot
slackbot
slurp
sogou
spider
telegrambot
twitterbot
uptimerobot
wget
whatsapp
yandexbot";

} // verus!
